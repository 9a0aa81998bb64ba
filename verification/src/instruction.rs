//! The tagged instruction union and its wire codec.
//!
//! Wire layout: byte 0 is the tag; the remaining bytes are the variant's
//! fields in order, each of fixed width, except the trailing message text,
//! which occupies exactly the previously declared number of bytes.
use vstd::prelude::*;
use vstd::bytes::{spec_u32_from_le_bytes, spec_u32_to_le_bytes, u32_to_le_bytes};
use vstd::utf8::{decode_utf8, encode_utf8, encode_utf8_decode_utf8, encode_utf8_valid_utf8,
    valid_utf8};
use crate::address::Address;
use crate::error::Sol2SolError;
use crate::wire::{bytes_to_string, read_address, read_u32_le, string_bytes};

verus! {

/// Instructions supported by the mailbox program.
#[derive(Clone, Debug, PartialEq)]
pub enum Sol2SolInstruction {
    /// Creates a fresh mailbox record.
    InitializeSolBox {
        /// Owner of the mailbox.
        owner: Address,
        /// How many messages the box is declared to store.
        num_spots: u32,
        /// Address of the next box in the chain.
        next_box: Address,
        /// Address of the previous box; itself when the box is the root.
        prev_box: Address,
    },
    /// Stores a message record and files it in a mailbox.
    WriteMessage {
        /// Which address sends the message.
        sender: Address,
        /// Which address the message is for.
        recipient: Address,
        /// Which mailbox receives the reference.
        sol_box_id: Address,
        /// Declared byte length of the message text.
        msg_size: u32,
        /// The UTF-8 text of the message.
        msg_string: String,
    },
    /// Removes a message from a mailbox and reclaims its storage.
    DeleteMessage {
        /// Who asks for the deletion.
        owner: Address,
        /// The message record to delete.
        message_id: Address,
        /// The mailbox holding the reference.
        sol_box_id: Address,
    },
}

/// The mathematical value of an instruction: addresses as byte sequences,
/// the message as its character sequence.
#[verifier::ext_equal]
pub ghost enum InstructionView {
    InitializeSolBox { owner: Seq<u8>, num_spots: u32, next_box: Seq<u8>, prev_box: Seq<u8> },
    WriteMessage {
        sender: Seq<u8>,
        recipient: Seq<u8>,
        sol_box_id: Seq<u8>,
        msg_size: u32,
        msg_string: Seq<char>,
    },
    DeleteMessage { owner: Seq<u8>, message_id: Seq<u8>, sol_box_id: Seq<u8> },
}

impl View for Sol2SolInstruction {
    type V = InstructionView;

    open spec fn view(&self) -> InstructionView {
        match *self {
            Sol2SolInstruction::InitializeSolBox { owner, num_spots, next_box, prev_box } => (
            InstructionView::InitializeSolBox {
                owner: owner@,
                num_spots,
                next_box: next_box@,
                prev_box: prev_box@,
            }),
            Sol2SolInstruction::WriteMessage {
                sender,
                recipient,
                sol_box_id,
                msg_size,
                msg_string,
            } => (InstructionView::WriteMessage {
                sender: sender@,
                recipient: recipient@,
                sol_box_id: sol_box_id@,
                msg_size,
                msg_string: msg_string@,
            }),
            Sol2SolInstruction::DeleteMessage { owner, message_id, sol_box_id } => (
            InstructionView::DeleteMessage {
                owner: owner@,
                message_id: message_id@,
                sol_box_id: sol_box_id@,
            }),
        }
    }
}

/// A well-formed instruction value: every address is 32 bytes and a message
/// write declares as its size the byte length of the message's UTF-8 form.
pub open spec fn wf_instruction(v: InstructionView) -> bool {
    match v {
        InstructionView::InitializeSolBox { owner, num_spots, next_box, prev_box } => owner.len()
            == 32 && next_box.len() == 32 && prev_box.len() == 32,
        InstructionView::WriteMessage { sender, recipient, sol_box_id, msg_size, msg_string } =>
            sender.len() == 32 && recipient.len() == 32 && sol_box_id.len() == 32 && msg_size
            == encode_utf8(msg_string).len(),
        InstructionView::DeleteMessage { owner, message_id, sol_box_id } => owner.len() == 32
            && message_id.len() == 32 && sol_box_id.len() == 32,
    }
}

/// The exact byte encoding of an instruction: the tag byte, then each field
/// in order, the raw message bytes last, with no padding or terminator.
pub open spec fn instruction_bytes(v: InstructionView) -> Seq<u8> {
    match v {
        InstructionView::InitializeSolBox { owner, num_spots, next_box, prev_box } => seq![0u8]
            + owner + spec_u32_to_le_bytes(num_spots) + next_box + prev_box,
        InstructionView::WriteMessage { sender, recipient, sol_box_id, msg_size, msg_string } =>
            seq![1u8] + sender + recipient + sol_box_id + spec_u32_to_le_bytes(msg_size)
            + encode_utf8(msg_string),
        InstructionView::DeleteMessage { owner, message_id, sol_box_id } => seq![2u8] + owner
            + message_id + sol_box_id,
    }
}

/// What decoding a buffer yields: each field is read in order at its fixed
/// offset; a buffer shorter than a field's end, or an unrecognized tag,
/// fails with `InvalidInstructionData`; message bytes that are not valid
/// UTF-8 fail with `InvalidAccountData`. Bytes past the needed width are
/// ignored.
pub open spec fn parse_instruction(b: Seq<u8>) -> Result<InstructionView, Sol2SolError> {
    if b.len() < 1 {
        Err(Sol2SolError::InvalidInstructionData)
    } else if b[0] == 0 {
        if b.len() < 101 {
            Err(Sol2SolError::InvalidInstructionData)
        } else {
            Ok(InstructionView::InitializeSolBox {
                owner: b.subrange(1, 33),
                num_spots: spec_u32_from_le_bytes(b.subrange(33, 37)),
                next_box: b.subrange(37, 69),
                prev_box: b.subrange(69, 101),
            })
        }
    } else if b[0] == 1 {
        if b.len() < 101 {
            Err(Sol2SolError::InvalidInstructionData)
        } else {
            let msg_size = spec_u32_from_le_bytes(b.subrange(97, 101));
            if b.len() < 101 + msg_size as int {
                Err(Sol2SolError::InvalidInstructionData)
            } else if !valid_utf8(b.subrange(101, 101 + msg_size as int)) {
                Err(Sol2SolError::InvalidAccountData)
            } else {
                Ok(InstructionView::WriteMessage {
                    sender: b.subrange(1, 33),
                    recipient: b.subrange(33, 65),
                    sol_box_id: b.subrange(65, 97),
                    msg_size,
                    msg_string: decode_utf8(b.subrange(101, 101 + msg_size as int)),
                })
            }
        }
    } else if b[0] == 2 {
        if b.len() < 97 {
            Err(Sol2SolError::InvalidInstructionData)
        } else {
            Ok(InstructionView::DeleteMessage {
                owner: b.subrange(1, 33),
                message_id: b.subrange(33, 65),
                sol_box_id: b.subrange(65, 97),
            })
        }
    } else {
        Err(Sol2SolError::InvalidInstructionData)
    }
}

impl Sol2SolInstruction {
    /// Decodes the given bytes into an instruction, returning exactly what
    /// `parse_instruction` says for them.
    pub fn unpack(input: &Vec<u8>) -> (r: Result<Sol2SolInstruction, Sol2SolError>)
        ensures
            (match parse_instruction(input@) {
                Ok(v) => r is Ok && r->Ok_0@ == v,
                Err(e) => r is Err && r->Err_0 == e,
            }),
    {
        let n = input.len();
        if n < 1 {
            return Err(Sol2SolError::InvalidInstructionData);
        }
        let tag = input[0];
        if tag == 0 {
            if n < 101 {
                return Err(Sol2SolError::InvalidInstructionData);
            }
            let owner = read_address(input, 1);
            let num_spots = read_u32_le(input, 33);
            let next_box = read_address(input, 37);
            let prev_box = read_address(input, 69);
            Ok(Sol2SolInstruction::InitializeSolBox { owner, num_spots, next_box, prev_box })
        } else if tag == 1 {
            if n < 101 {
                return Err(Sol2SolError::InvalidInstructionData);
            }
            let sender = read_address(input, 1);
            let recipient = read_address(input, 33);
            let sol_box_id = read_address(input, 65);
            let msg_size = read_u32_le(input, 97);
            if msg_size as usize > n - 101 {
                return Err(Sol2SolError::InvalidInstructionData);
            }
            let end: usize = 101 + msg_size as usize;
            let mut payload: Vec<u8> = Vec::new();
            let mut i: usize = 101;
            while i < end
                invariant
                    101 <= i <= end,
                    end <= n == input@.len(),
                    payload@ =~= input@.subrange(101, i as int),
                decreases end - i,
            {
                payload.push(input[i]);
                i = i + 1;
            }
            proof {
                assert(payload@ =~= input@.subrange(101, 101 + msg_size as int));
            }
            match bytes_to_string(payload) {
                Some(msg_string) => {
                    proof {
                        encode_utf8_decode_utf8(msg_string@);
                    }
                    Ok(Sol2SolInstruction::WriteMessage {
                        sender,
                        recipient,
                        sol_box_id,
                        msg_size,
                        msg_string,
                    })
                },
                None => Err(Sol2SolError::InvalidAccountData),
            }
        } else if tag == 2 {
            if n < 97 {
                return Err(Sol2SolError::InvalidInstructionData);
            }
            let owner = read_address(input, 1);
            let message_id = read_address(input, 33);
            let sol_box_id = read_address(input, 65);
            Ok(Sol2SolInstruction::DeleteMessage { owner, message_id, sol_box_id })
        } else {
            Err(Sol2SolError::InvalidInstructionData)
        }
    }

    /// Encodes the instruction into a fresh buffer; the exact structural
    /// inverse of decoding.
    pub fn pack(&self) -> (r: Vec<u8>)
        ensures
            r@ == instruction_bytes(self@),
    {
        let mut buf: Vec<u8> = Vec::new();
        match self {
            Sol2SolInstruction::InitializeSolBox { owner, num_spots, next_box, prev_box } => {
                buf.push(0);
                buf.extend_from_slice(owner.bytes.as_slice());
                let mut four = u32_to_le_bytes(*num_spots);
                buf.append(&mut four);
                buf.extend_from_slice(next_box.bytes.as_slice());
                buf.extend_from_slice(prev_box.bytes.as_slice());
            },
            Sol2SolInstruction::WriteMessage {
                sender,
                recipient,
                sol_box_id,
                msg_size,
                msg_string,
            } => {
                buf.push(1);
                buf.extend_from_slice(sender.bytes.as_slice());
                buf.extend_from_slice(recipient.bytes.as_slice());
                buf.extend_from_slice(sol_box_id.bytes.as_slice());
                let mut four = u32_to_le_bytes(*msg_size);
                buf.append(&mut four);
                let mut text = string_bytes(msg_string);
                buf.append(&mut text);
            },
            Sol2SolInstruction::DeleteMessage { owner, message_id, sol_box_id } => {
                buf.push(2);
                buf.extend_from_slice(owner.bytes.as_slice());
                buf.extend_from_slice(message_id.bytes.as_slice());
                buf.extend_from_slice(sol_box_id.bytes.as_slice());
            },
        }
        proof {
            assert(buf@ =~= instruction_bytes(self@));
        }
        buf
    }
}

/// Round trip: decoding the encoding of any well-formed instruction yields
/// that instruction back.
pub proof fn lemma_instruction_round_trip(v: InstructionView)
    requires
        wf_instruction(v),
    ensures
        parse_instruction(instruction_bytes(v)) == Ok::<InstructionView, Sol2SolError>(v),
{
    vstd::bytes::lemma_auto_spec_u32_to_from_le_bytes();
    let b = instruction_bytes(v);
    match v {
        InstructionView::InitializeSolBox { owner, num_spots, next_box, prev_box } => {
            assert(b.subrange(1, 33) =~= owner);
            assert(b.subrange(33, 37) =~= spec_u32_to_le_bytes(num_spots));
            assert(b.subrange(37, 69) =~= next_box);
            assert(b.subrange(69, 101) =~= prev_box);
            assert(parse_instruction(b) == Ok::<InstructionView, Sol2SolError>(v));
        },
        InstructionView::WriteMessage { sender, recipient, sol_box_id, msg_size, msg_string } => {
            encode_utf8_valid_utf8(msg_string);
            encode_utf8_decode_utf8(msg_string);
            assert(b.subrange(1, 33) =~= sender);
            assert(b.subrange(33, 65) =~= recipient);
            assert(b.subrange(65, 97) =~= sol_box_id);
            assert(b.subrange(97, 101) =~= spec_u32_to_le_bytes(msg_size));
            assert(b.subrange(101, 101 + msg_size as int) =~= encode_utf8(msg_string));
            assert(parse_instruction(b) == Ok::<InstructionView, Sol2SolError>(v));
        },
        InstructionView::DeleteMessage { owner, message_id, sol_box_id } => {
            assert(b.subrange(1, 33) =~= owner);
            assert(b.subrange(33, 65) =~= message_id);
            assert(b.subrange(65, 97) =~= sol_box_id);
            assert(parse_instruction(b) == Ok::<InstructionView, Sol2SolError>(v));
        },
    }
}

/// Tag invariant: a buffer whose tag byte is none of the three known tags
/// is rejected with `InvalidInstructionData`.
pub proof fn lemma_unknown_tag_rejected(b: Seq<u8>)
    requires
        b.len() >= 1,
        b[0] != 0,
        b[0] != 1,
        b[0] != 2,
    ensures
        parse_instruction(b) == Err::<InstructionView, Sol2SolError>(Sol2SolError::InvalidInstructionData),
{
}

/// The width a buffer must reach before its instruction decodes: the tag
/// byte, the fixed fields of the tagged variant, and for a message write
/// also the declared message bytes.
pub open spec fn instruction_required_len(b: Seq<u8>) -> int {
    if b.len() < 1 {
        1
    } else if b[0] == 0 {
        101
    } else if b[0] == 1 {
        if b.len() < 101 {
            101
        } else {
            101 + spec_u32_from_le_bytes(b.subrange(97, 101)) as int
        }
    } else if b[0] == 2 {
        97
    } else {
        1
    }
}

/// Truncation invariant: a buffer shorter than its required width is
/// rejected with `InvalidInstructionData`.
pub proof fn lemma_truncated_instruction_rejected(b: Seq<u8>)
    requires
        b.len() < instruction_required_len(b),
    ensures
        parse_instruction(b) == Err::<InstructionView, Sol2SolError>(Sol2SolError::InvalidInstructionData),
{
}

} // verus!
