//! The dispatcher: decodes an instruction, validates caller identity and
//! region identity against the supplied storage regions, and rewrites
//! them. A failed call leaves every region byte-for-byte unchanged.
use vstd::prelude::*;
use vstd::utf8::encode_utf8;
use crate::address::Address;
use crate::error::Sol2SolError;
use crate::instruction::{parse_instruction, InstructionView, Sol2SolInstruction};
use crate::state::{filed_sol_box, find_slot, freed_sol_box, fresh_sol_box, message_bytes,
    null_address, pack_message_into, parse_sol_box, sol_box_bytes, SolBox, FIXED_MSG_SIZE,
    SOL_BOX_LEN, SOL_BOX_NUM_SPOTS};

verus! {

/// A mutable storage region handed in by the environment for one dispatch
/// call: its address, its declared owning authority, whether it meets the
/// environment's funding rule, and its bytes.
pub struct StorageRegion {
    /// The address naming the region.
    pub key: Address,
    /// The authority that owns the region.
    pub owner: Address,
    /// Whether the region meets the funding rule.
    pub is_rent_exempt: bool,
    /// The region's bytes.
    pub data: Vec<u8>,
}

/// Everything about a region but its bytes is the same.
pub open spec fn region_meta_unchanged(pre: StorageRegion, post: StorageRegion) -> bool {
    &&& post.key == pre.key
    &&& post.owner == pre.owner
    &&& post.is_rent_exempt == pre.is_rent_exempt
}

/// Which result initialization gives, in check order: the region must be
/// owned by the program, the declared owner must be the caller, the region
/// must meet the funding rule, the declared capacity must be the fixed
/// one, and the region must have exactly the record length.
pub open spec fn init_sol_box_result(
    region: StorageRegion,
    program_id: Address,
    caller: Address,
    owner: Seq<u8>,
    num_spots: u32,
) -> Result<(), Sol2SolError> {
    if region.owner@ != program_id@ {
        Err(Sol2SolError::OwnerMismatch)
    } else if owner != caller@ {
        Err(Sol2SolError::OwnerMismatch)
    } else if !region.is_rent_exempt {
        Err(Sol2SolError::InsufficientFunds)
    } else if num_spots != SOL_BOX_NUM_SPOTS as u32 {
        Err(Sol2SolError::SolBoxInvalidNumSpots)
    } else if region.data@.len() != SOL_BOX_LEN {
        Err(Sol2SolError::InvalidAccountData)
    } else {
        Ok(())
    }
}

/// Which result a message write gives, in check order: the message region
/// must be owned by the program, the mailbox region must be the one the
/// instruction names and owned by the program, its record must decode and
/// belong to the caller, the declared size must be the text's byte length,
/// the message region must have exactly the record's length, and the slot
/// table must have room.
pub open spec fn write_message_result(
    msg_region: StorageRegion,
    box_region: StorageRegion,
    program_id: Address,
    caller: Address,
    sol_box_id: Seq<u8>,
    msg_size: u32,
    msg_string: Seq<char>,
) -> Result<(), Sol2SolError> {
    if msg_region.owner@ != program_id@ {
        Err(Sol2SolError::OwnerMismatch)
    } else if box_region.key@ != sol_box_id {
        Err(Sol2SolError::InvalidInstructionData)
    } else if box_region.owner@ != program_id@ {
        Err(Sol2SolError::OwnerMismatch)
    } else if box_region.data@.len() != SOL_BOX_LEN {
        Err(Sol2SolError::InvalidAccountData)
    } else if parse_sol_box(box_region.data@) is Err {
        Err(parse_sol_box(box_region.data@)->Err_0)
    } else if parse_sol_box(box_region.data@)->Ok_0.owner != caller@ {
        Err(Sol2SolError::OwnerMismatch)
    } else if msg_size != encode_utf8(msg_string).len() {
        Err(Sol2SolError::InvalidInstructionData)
    } else if msg_region.data@.len() != FIXED_MSG_SIZE + msg_size as int {
        Err(Sol2SolError::InvalidAccountData)
    } else if find_slot(parse_sol_box(box_region.data@)->Ok_0.message_slots, null_address())
        < 0 {
        Err(Sol2SolError::SolBoxNoSpaceLeft)
    } else {
        Ok(())
    }
}

/// Which result a message deletion gives, in check order: the mailbox
/// region must be the one the instruction names and owned by the program,
/// the declared owner must be the caller, the record must decode and
/// belong to the caller, and some slot must hold the message.
pub open spec fn delete_message_result(
    box_region: StorageRegion,
    program_id: Address,
    caller: Address,
    owner: Seq<u8>,
    message_id: Seq<u8>,
    sol_box_id: Seq<u8>,
) -> Result<(), Sol2SolError> {
    if box_region.owner@ != program_id@ {
        Err(Sol2SolError::OwnerMismatch)
    } else if box_region.key@ != sol_box_id {
        Err(Sol2SolError::InvalidInstructionData)
    } else if owner != caller@ {
        Err(Sol2SolError::OwnerMismatch)
    } else if box_region.data@.len() != SOL_BOX_LEN {
        Err(Sol2SolError::InvalidAccountData)
    } else if parse_sol_box(box_region.data@) is Err {
        Err(parse_sol_box(box_region.data@)->Err_0)
    } else if parse_sol_box(box_region.data@)->Ok_0.owner != caller@ {
        Err(Sol2SolError::OwnerMismatch)
    } else if find_slot(parse_sol_box(box_region.data@)->Ok_0.message_slots, message_id) < 0 {
        Err(Sol2SolError::InvalidInstructionData)
    } else {
        Ok(())
    }
}

/// Directs how message instructions are handled.
pub struct Processor {}

impl Processor {
    /// Decodes the instruction bytes and dispatches them against the
    /// storage regions the environment handed over, in position order:
    /// the mailbox region, preceded by the message region for a message
    /// write. A failed call leaves every region unchanged.
    pub fn process_instruction(
        program_id: &Address,
        regions: &mut Vec<StorageRegion>,
        payer_key: &Address,
        instruction_data: &Vec<u8>,
    ) -> (r: Result<(), Sol2SolError>)
        ensures
            final(regions)@.len() == old(regions)@.len(),
            ({
                let p = parse_instruction(instruction_data@);
                match p {
                    Err(e) => r == Err::<(), Sol2SolError>(e) && final(regions)@ == old(
                        regions,
                    )@,
                    Ok(v) => match v {
                        InstructionView::InitializeSolBox {
                            owner,
                            num_spots,
                            next_box,
                            prev_box,
                        } => (if old(regions)@.len() < 1 {
                            r == Err::<(), Sol2SolError>(Sol2SolError::InvalidInstructionData)
                                && final(regions)@ == old(regions)@
                        } else {
                            &&& r == init_sol_box_result(
                                old(regions)@[0],
                                *program_id,
                                *payer_key,
                                owner,
                                num_spots,
                            )
                            &&& region_meta_unchanged(old(regions)@[0], final(regions)@[0])
                            &&& (forall|i: int|
                                1 <= i < old(regions)@.len() ==> final(regions)@[i] == old(
                                    regions,
                                )@[i])
                            &&& (r is Err ==> final(regions)@[0].data@ == old(
                                regions,
                            )@[0].data@)
                            &&& (r is Ok ==> final(regions)@[0].data@ == sol_box_bytes(
                                fresh_sol_box(owner, num_spots, next_box, prev_box),
                            ))
                        }),
                        InstructionView::WriteMessage {
                            sender,
                            recipient,
                            sol_box_id,
                            msg_size,
                            msg_string,
                        } => (if old(regions)@.len() < 2 {
                            r == Err::<(), Sol2SolError>(Sol2SolError::InvalidInstructionData)
                                && final(regions)@ == old(regions)@
                        } else {
                            &&& r == write_message_result(
                                old(regions)@[0],
                                old(regions)@[1],
                                *program_id,
                                *payer_key,
                                sol_box_id,
                                msg_size,
                                msg_string,
                            )
                            &&& region_meta_unchanged(old(regions)@[0], final(regions)@[0])
                            &&& region_meta_unchanged(old(regions)@[1], final(regions)@[1])
                            &&& (forall|i: int|
                                2 <= i < old(regions)@.len() ==> final(regions)@[i] == old(
                                    regions,
                                )@[i])
                            &&& (r is Err ==> final(regions)@[0].data@ == old(regions)@[0].data@
                                && final(regions)@[1].data@ == old(regions)@[1].data@)
                            &&& (r is Ok ==> final(regions)@[0].data@ == message_bytes(
                                recipient,
                                sender,
                                msg_size,
                                msg_string,
                            ) && final(regions)@[1].data@ == sol_box_bytes(
                                filed_sol_box(
                                    parse_sol_box(old(regions)@[1].data@)->Ok_0,
                                    old(regions)@[0].key@,
                                ),
                            ))
                        }),
                        InstructionView::DeleteMessage { owner, message_id, sol_box_id } => (
                        if old(regions)@.len() < 1 {
                            r == Err::<(), Sol2SolError>(Sol2SolError::InvalidInstructionData)
                                && final(regions)@ == old(regions)@
                        } else {
                            &&& r == delete_message_result(
                                old(regions)@[0],
                                *program_id,
                                *payer_key,
                                owner,
                                message_id,
                                sol_box_id,
                            )
                            &&& region_meta_unchanged(old(regions)@[0], final(regions)@[0])
                            &&& (forall|i: int|
                                1 <= i < old(regions)@.len() ==> final(regions)@[i] == old(
                                    regions,
                                )@[i])
                            &&& (r is Err ==> final(regions)@[0].data@ == old(
                                regions,
                            )@[0].data@)
                            &&& (r is Ok ==> final(regions)@[0].data@ == sol_box_bytes(
                                freed_sol_box(
                                    parse_sol_box(old(regions)@[0].data@)->Ok_0,
                                    message_id,
                                ),
                            ))
                        }),
                    },
                }
            }),
    {
        let instruction = match Sol2SolInstruction::unpack(instruction_data) {
            Ok(instruction) => instruction,
            Err(e) => {
                return Err(e);
            },
        };
        match instruction {
            Sol2SolInstruction::InitializeSolBox { owner, num_spots, next_box, prev_box } => {
                if regions.len() < 1 {
                    return Err(Sol2SolError::InvalidInstructionData);
                }
                Self::process_init_sol_box(
                    program_id,
                    &mut regions[0],
                    payer_key,
                    &owner,
                    num_spots,
                    &next_box,
                    &prev_box,
                )
            },
            Sol2SolInstruction::WriteMessage {
                sender,
                recipient,
                sol_box_id,
                msg_size,
                msg_string,
            } => {
                if regions.len() < 2 {
                    return Err(Sol2SolError::InvalidInstructionData);
                }
                let ghost orig = regions@;
                let mut message_region = regions.remove(0);
                let res = Self::process_write_message(
                    program_id,
                    &mut message_region,
                    &mut regions[0],
                    payer_key,
                    &sender,
                    &recipient,
                    &sol_box_id,
                    msg_size,
                    &msg_string,
                );
                regions.insert(0, message_region);
                proof {
                    assert forall|i: int| 2 <= i < orig.len() implies regions@[i] == orig[i] by {
                        assert(regions@[i] == orig.remove(0).update(0, regions@[1])[i - 1]);
                    }
                }
                res
            },
            Sol2SolInstruction::DeleteMessage { owner, message_id, sol_box_id } => {
                if regions.len() < 1 {
                    return Err(Sol2SolError::InvalidInstructionData);
                }
                Self::process_delete_message(
                    program_id,
                    &mut regions[0],
                    payer_key,
                    &owner,
                    &message_id,
                    &sol_box_id,
                )
            },
        }
    }
    /// Builds a fresh mailbox record in the target region: all slots set
    /// to the sentinel, nothing in use, marked initialized.
    pub fn process_init_sol_box(
        program_id: &Address,
        sol_box_region: &mut StorageRegion,
        payer_key: &Address,
        owner: &Address,
        num_spots: u32,
        next_box: &Address,
        prev_box: &Address,
    ) -> (r: Result<(), Sol2SolError>)
        ensures
            r == init_sol_box_result(
                *old(sol_box_region),
                *program_id,
                *payer_key,
                owner@,
                num_spots,
            ),
            region_meta_unchanged(*old(sol_box_region), *final(sol_box_region)),
            final(sol_box_region).data@.len() == old(sol_box_region).data@.len(),
            r is Err ==> final(sol_box_region).data@ == old(sol_box_region).data@,
            r is Ok ==> final(sol_box_region).data@ == sol_box_bytes(
                fresh_sol_box(owner@, num_spots, next_box@, prev_box@),
            ),
    {
        if !sol_box_region.owner.equals(program_id) {
            return Err(Sol2SolError::OwnerMismatch);
        }
        if !owner.equals(payer_key) {
            return Err(Sol2SolError::OwnerMismatch);
        }
        if !sol_box_region.is_rent_exempt {
            return Err(Sol2SolError::InsufficientFunds);
        }
        if num_spots != 20 {
            return Err(Sol2SolError::SolBoxInvalidNumSpots);
        }
        if sol_box_region.data.len() != SOL_BOX_LEN {
            return Err(Sol2SolError::InvalidAccountData);
        }
        let message_slots = SolBox::get_empty_message_slots();
        let sol_box = SolBox {
            owner: *owner,
            next_box: *next_box,
            prev_box: *prev_box,
            num_spots,
            message_slots,
            is_initialized: true,
            num_in_use: 0,
        };
        sol_box.pack_into_slice(&mut sol_box_region.data);
        proof {
            let f = fresh_sol_box(owner@, num_spots, next_box@, prev_box@);
            assert(sol_box@.message_slots =~= f.message_slots);
            assert(sol_box@ =~= f);
            assert(sol_box_region.data@ =~= sol_box_bytes(f));
        }
        Ok(())
    }

    /// Stores the message in the message region and files its address in
    /// the first free slot of the mailbox record; every check happens
    /// before either region is written.
    pub fn process_write_message(
        program_id: &Address,
        message_region: &mut StorageRegion,
        sol_box_region: &mut StorageRegion,
        payer_key: &Address,
        sender: &Address,
        recipient: &Address,
        sol_box_id: &Address,
        msg_size: u32,
        msg_string: &String,
    ) -> (r: Result<(), Sol2SolError>)
        ensures
            r == write_message_result(
                *old(message_region),
                *old(sol_box_region),
                *program_id,
                *payer_key,
                sol_box_id@,
                msg_size,
                msg_string@,
            ),
            region_meta_unchanged(*old(message_region), *final(message_region)),
            region_meta_unchanged(*old(sol_box_region), *final(sol_box_region)),
            r is Err ==> final(message_region).data@ == old(message_region).data@
                && final(sol_box_region).data@ == old(sol_box_region).data@,
            r is Ok ==> final(message_region).data@ == message_bytes(
                recipient@,
                sender@,
                msg_size,
                msg_string@,
            ) && final(sol_box_region).data@ == sol_box_bytes(
                filed_sol_box(
                    parse_sol_box(old(sol_box_region).data@)->Ok_0,
                    old(message_region).key@,
                ),
            ),
    {
        if !message_region.owner.equals(program_id) {
            return Err(Sol2SolError::OwnerMismatch);
        }
        if !sol_box_region.key.equals(sol_box_id) {
            return Err(Sol2SolError::InvalidInstructionData);
        }
        if !sol_box_region.owner.equals(program_id) {
            return Err(Sol2SolError::OwnerMismatch);
        }
        if sol_box_region.data.len() != SOL_BOX_LEN {
            return Err(Sol2SolError::InvalidAccountData);
        }
        let mut sol_box = match SolBox::unpack_from_slice(&sol_box_region.data) {
            Ok(sol_box) => sol_box,
            Err(e) => {
                return Err(e);
            },
        };
        if !sol_box.owner.equals(payer_key) {
            return Err(Sol2SolError::OwnerMismatch);
        }
        let text_len = msg_string.as_str().as_bytes().len();
        if msg_size as usize != text_len {
            return Err(Sol2SolError::InvalidInstructionData);
        }
        let data_len = message_region.data.len();
        if data_len < FIXED_MSG_SIZE || data_len - FIXED_MSG_SIZE != text_len {
            return Err(Sol2SolError::InvalidAccountData);
        }
        match SolBox::add_message_to_sol_box(&mut sol_box.message_slots, &message_region.key) {
            Ok(_) => (),
            Err(e) => {
                return Err(e);
            },
        };
        if sol_box.num_in_use < u32::MAX {
            sol_box.num_in_use = sol_box.num_in_use + 1;
        }
        pack_message_into(
            recipient,
            sender,
            msg_size,
            msg_string,
            &mut message_region.data,
        );
        sol_box.pack_into_slice(&mut sol_box_region.data);
        proof {
            let v = parse_sol_box(old(sol_box_region).data@)->Ok_0;
            let filed = filed_sol_box(v, old(message_region).key@);
            assert(sol_box@.message_slots =~= filed.message_slots);
            assert(sol_box@ =~= filed);
            assert(sol_box_region.data@ =~= sol_box_bytes(filed));
        }
        Ok(())
    }

    /// Frees the slot holding the message and writes the record back;
    /// releasing the message region's storage itself is the environment's
    /// concern.
    pub fn process_delete_message(
        program_id: &Address,
        sol_box_region: &mut StorageRegion,
        payer_key: &Address,
        owner: &Address,
        message_id: &Address,
        sol_box_id: &Address,
    ) -> (r: Result<(), Sol2SolError>)
        ensures
            r == delete_message_result(
                *old(sol_box_region),
                *program_id,
                *payer_key,
                owner@,
                message_id@,
                sol_box_id@,
            ),
            region_meta_unchanged(*old(sol_box_region), *final(sol_box_region)),
            r is Err ==> final(sol_box_region).data@ == old(sol_box_region).data@,
            r is Ok ==> final(sol_box_region).data@ == sol_box_bytes(
                freed_sol_box(parse_sol_box(old(sol_box_region).data@)->Ok_0, message_id@),
            ),
    {
        if !sol_box_region.owner.equals(program_id) {
            return Err(Sol2SolError::OwnerMismatch);
        }
        if !sol_box_region.key.equals(sol_box_id) {
            return Err(Sol2SolError::InvalidInstructionData);
        }
        if !owner.equals(payer_key) {
            return Err(Sol2SolError::OwnerMismatch);
        }
        if sol_box_region.data.len() != SOL_BOX_LEN {
            return Err(Sol2SolError::InvalidAccountData);
        }
        let mut sol_box = match SolBox::unpack_from_slice(&sol_box_region.data) {
            Ok(sol_box) => sol_box,
            Err(e) => {
                return Err(e);
            },
        };
        if !sol_box.owner.equals(payer_key) {
            return Err(Sol2SolError::OwnerMismatch);
        }
        match sol_box.free_message_slot(message_id) {
            Ok(_) => (),
            Err(e) => {
                return Err(e);
            },
        };
        sol_box.pack_into_slice(&mut sol_box_region.data);
        proof {
            let v = parse_sol_box(old(sol_box_region).data@)->Ok_0;
            let freed = freed_sol_box(v, message_id@);
            assert(sol_box@.message_slots =~= freed.message_slots);
            assert(sol_box@ =~= freed);
            assert(sol_box_region.data@ =~= sol_box_bytes(freed));
        }
        Ok(())
    }
}

} // verus!
