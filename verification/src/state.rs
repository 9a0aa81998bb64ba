//! The mailbox record, its fixed-layout codec, the message record codec,
//! and the first-fit slot allocator.
use vstd::prelude::*;
use vstd::bytes::{spec_u32_from_le_bytes, spec_u32_to_le_bytes};
use vstd::utf8::{decode_utf8, encode_utf8, encode_utf8_decode_utf8, encode_utf8_valid_utf8,
    valid_utf8};
use crate::address::Address;
use crate::error::Sol2SolError;
use crate::wire::{bytes_to_string, read_address, read_u32_le, string_bytes, write_address,
    write_u32_le};

verus! {

/// How many message slots every mailbox record holds. The record format
/// carries a capacity field, but only this value is valid.
pub const SOL_BOX_NUM_SPOTS: usize = 20;

/// Total encoded length of a mailbox record: three 32-byte addresses, two
/// 32-bit counters, one flag byte, and the slot table.
pub const SOL_BOX_LEN: usize = 745;

/// The well-known sentinel address meaning "empty slot".
pub open spec fn null_address() -> Seq<u8> {
    seq![
        6u8, 221u8, 246u8, 225u8, 215u8, 101u8, 161u8, 147u8, 217u8, 203u8, 225u8, 70u8, 206u8,
        235u8, 121u8, 172u8, 28u8, 180u8, 133u8, 237u8, 95u8, 91u8, 55u8, 145u8, 58u8, 140u8,
        245u8, 133u8, 126u8, 255u8, 0u8, 169u8,
    ]
}

/// A fixed-capacity container of message references, linked to its
/// neighbour boxes by address.
#[derive(Clone, Copy, Debug, PartialEq)]
pub struct SolBox {
    /// Who owns this box.
    pub owner: Address,
    /// Where to go looking for more messages.
    pub next_box: Address,
    /// Where to go looking for more messages.
    pub prev_box: Address,
    /// How many messages this box stores.
    pub num_spots: u32,
    /// How many slots are in use.
    pub num_in_use: u32,
    /// Whether the box has been initialized.
    pub is_initialized: bool,
    /// The slot table: a message address per occupied slot, the sentinel
    /// address per empty one.
    pub message_slots: [Address; SOL_BOX_NUM_SPOTS],
}

/// The mathematical value of a mailbox record: addresses as byte sequences.
#[verifier::ext_equal]
pub ghost struct SolBoxView {
    pub owner: Seq<u8>,
    pub next_box: Seq<u8>,
    pub prev_box: Seq<u8>,
    pub num_spots: u32,
    pub num_in_use: u32,
    pub is_initialized: bool,
    pub message_slots: Seq<Seq<u8>>,
}

/// The byte sequences of a slot table.
pub open spec fn slots_view(slots: [Address; SOL_BOX_NUM_SPOTS]) -> Seq<Seq<u8>> {
    slots@.map_values(|a: Address| a@)
}

impl View for SolBox {
    type V = SolBoxView;

    open spec fn view(&self) -> SolBoxView {
        SolBoxView {
            owner: self.owner@,
            next_box: self.next_box@,
            prev_box: self.prev_box@,
            num_spots: self.num_spots,
            num_in_use: self.num_in_use,
            is_initialized: self.is_initialized,
            message_slots: slots_view(self.message_slots),
        }
    }
}

/// A well-formed mailbox record value: the declared capacity is the fixed
/// one, the slot table has exactly that many 32-byte entries, and the
/// linking addresses are 32 bytes.
pub open spec fn wf_sol_box(v: SolBoxView) -> bool {
    &&& v.owner.len() == 32
    &&& v.next_box.len() == 32
    &&& v.prev_box.len() == 32
    &&& v.num_spots == SOL_BOX_NUM_SPOTS
    &&& v.message_slots.len() == SOL_BOX_NUM_SPOTS
    &&& (forall|i: int| 0 <= i < v.message_slots.len() ==> (#[trigger] v.message_slots[i]).len()
        == 32)
}

/// The first index at which `key` stands in the table, or -1 when it does
/// not stand anywhere.
pub open spec fn find_slot(slots: Seq<Seq<u8>>, key: Seq<u8>) -> int
    decreases slots.len(),
{
    if slots.len() == 0 {
        -1
    } else if slots[0] == key {
        0
    } else {
        let rest = find_slot(slots.drop_first(), key);
        if rest == -1 {
            -1
        } else {
            rest + 1
        }
    }
}

/// What `find_slot` means: -1 exactly when the key stands nowhere, and
/// otherwise the least index holding the key.
pub proof fn lemma_find_slot(slots: Seq<Seq<u8>>, key: Seq<u8>)
    ensures
        find_slot(slots, key) >= -1,
        find_slot(slots, key) == -1 ==> (forall|i: int|
            0 <= i < slots.len() ==> slots[i] != key),
        find_slot(slots, key) >= 0 ==> {
            &&& 0 <= find_slot(slots, key) < slots.len()
            &&& slots[find_slot(slots, key)] == key
            &&& (forall|i: int| 0 <= i < find_slot(slots, key) ==> slots[i] != key)
        },
    decreases slots.len(),
{
    if slots.len() > 0 && slots[0] != key {
        let rest = slots.drop_first();
        lemma_find_slot(rest, key);
        let f = find_slot(slots, key);
        if find_slot(rest, key) == -1 {
            assert forall|i: int| 0 <= i < slots.len() implies slots[i] != key by {
                if i > 0 {
                    assert(rest[i - 1] == slots[i]);
                    assert(rest[i - 1] != key);
                }
            }
        } else {
            assert(slots[f] == rest[f - 1]);
            assert forall|i: int| 0 <= i < f implies slots[i] != key by {
                if i > 0 {
                    assert(rest[i - 1] == slots[i]);
                    assert(rest[i - 1] != key);
                }
            }
        }
    }
}

impl SolBox {
    /// The sentinel address that marks an empty slot.
    pub fn get_null_key() -> (r: Address)
        ensures
            r@ == null_address(),
    {
        let bytes: [u8; 32] = [
            6, 221, 246, 225, 215, 101, 161, 147, 217, 203, 225, 70, 206, 235, 121, 172, 28, 180,
            133, 237, 95, 91, 55, 145, 58, 140, 245, 133, 126, 255, 0, 169,
        ];
        proof {
            assert(bytes@ =~= null_address());
        }
        Address { bytes }
    }

    /// A slot table with every slot empty.
    pub fn get_empty_message_slots() -> (r: [Address; SOL_BOX_NUM_SPOTS])
        ensures
            slots_view(r).len() == SOL_BOX_NUM_SPOTS,
            forall|i: int| 0 <= i < SOL_BOX_NUM_SPOTS ==> slots_view(r)[i] == null_address(),
    {
        let null_key = Self::get_null_key();
        [null_key; SOL_BOX_NUM_SPOTS]
    }

    /// Whether the box has been initialized.
    pub fn is_initialized(&self) -> (r: bool)
        ensures
            r == self.is_initialized,
    {
        self.is_initialized
    }

    /// First-fit allocation: the lowest sentinel slot is overwritten with
    /// the message key; a full table fails with `SolBoxNoSpaceLeft` and is
    /// left unchanged.
    pub fn add_message_to_sol_box(
        message_slots: &mut [Address; SOL_BOX_NUM_SPOTS],
        message_key: &Address,
    ) -> (r: Result<(), Sol2SolError>)
        ensures
            ({
                let s = slots_view(*old(message_slots));
                let ff = find_slot(s, null_address());
                if ff >= 0 {
                    r is Ok && slots_view(*final(message_slots)) == s.update(ff, message_key@)
                } else {
                    r == Err::<(), Sol2SolError>(Sol2SolError::SolBoxNoSpaceLeft)
                        && *final(message_slots) == *old(message_slots)
                }
            }),
    {
        let null_key = Self::get_null_key();
        let mut i: usize = 0;
        while i < SOL_BOX_NUM_SPOTS
            invariant
                i <= SOL_BOX_NUM_SPOTS,
                null_key@ == null_address(),
                *message_slots == *old(message_slots),
                forall|k: int|
                    0 <= k < i ==> slots_view(*old(message_slots))[k] != null_address(),
            decreases SOL_BOX_NUM_SPOTS - i,
        {
            if message_slots[i].equals(&null_key) {
                proof {
                    let s = slots_view(*old(message_slots));
                    assert(s[i as int] == (*old(message_slots))@[i as int]@);
                    assert(s[i as int] == null_address());
                    lemma_find_slot(s, null_address());
                    let ff = find_slot(s, null_address());
                    if ff == -1 {
                        assert(s[i as int] != null_address());
                    } else if ff < i {
                        assert(s[ff] != null_address());
                    } else if ff > i {
                        assert(s[i as int] != null_address());
                    }
                    assert(ff == i);
                }
                message_slots[i] = *message_key;
                proof {
                    assert(slots_view(*message_slots) =~= slots_view(*old(message_slots)).update(
                        i as int,
                        message_key@,
                    ));
                }
                return Ok(());
            }
            i = i + 1;
        }
        proof {
            let s = slots_view(*old(message_slots));
            lemma_find_slot(s, null_address());
            let ff = find_slot(s, null_address());
            if ff >= 0 {
                assert(s[ff] != null_address());
            }
            assert(ff == -1);
        }
        Err(Sol2SolError::SolBoxNoSpaceLeft)
    }

    /// The inverse of allocation: resets the lowest slot holding
    /// `message_key` to the sentinel and counts one slot less in use; a key
    /// held by no slot fails with `InvalidInstructionData` and leaves the
    /// record unchanged.
    pub fn free_message_slot(&mut self, message_key: &Address) -> (r: Result<(), Sol2SolError>)
        ensures
            ({
                let s = slots_view(old(self).message_slots);
                let idx = find_slot(s, message_key@);
                if idx >= 0 {
                    &&& r is Ok
                    &&& slots_view(final(self).message_slots) == s.update(idx, null_address())
                    &&& final(self).num_in_use == (if old(self).num_in_use > 0 {
                        (old(self).num_in_use - 1) as u32
                    } else {
                        0u32
                    })
                    &&& final(self).owner == old(self).owner
                    &&& final(self).next_box == old(self).next_box
                    &&& final(self).prev_box == old(self).prev_box
                    &&& final(self).num_spots == old(self).num_spots
                    &&& final(self).is_initialized == old(self).is_initialized
                } else {
                    r == Err::<(), Sol2SolError>(Sol2SolError::InvalidInstructionData)
                        && *final(self) == *old(self)
                }
            }),
    {
        let null_key = Self::get_null_key();
        let mut i: usize = 0;
        while i < SOL_BOX_NUM_SPOTS
            invariant
                i <= SOL_BOX_NUM_SPOTS,
                null_key@ == null_address(),
                *self == *old(self),
                forall|k: int|
                    0 <= k < i ==> slots_view(old(self).message_slots)[k] != message_key@,
            decreases SOL_BOX_NUM_SPOTS - i,
        {
            if self.message_slots[i].equals(message_key) {
                proof {
                    let s = slots_view(old(self).message_slots);
                    assert(s[i as int] == old(self).message_slots@[i as int]@);
                    assert(s[i as int] == message_key@);
                    lemma_find_slot(s, message_key@);
                    let idx = find_slot(s, message_key@);
                    if idx == -1 {
                        assert(s[i as int] != message_key@);
                    } else if idx < i {
                        assert(s[idx] != message_key@);
                    } else if idx > i {
                        assert(s[i as int] != message_key@);
                    }
                    assert(idx == i);
                }
                self.message_slots[i] = null_key;
                if self.num_in_use > 0 {
                    self.num_in_use = self.num_in_use - 1;
                }
                proof {
                    assert(slots_view(self.message_slots) =~= slots_view(
                        old(self).message_slots,
                    ).update(i as int, null_address()));
                }
                return Ok(());
            }
            i = i + 1;
        }
        proof {
            let s = slots_view(old(self).message_slots);
            lemma_find_slot(s, message_key@);
        }
        Err(Sol2SolError::InvalidInstructionData)
    }
}

/// The byte encoding of a slot table: its entries in order.
pub open spec fn slots_bytes(slots: Seq<Seq<u8>>) -> Seq<u8>
    decreases slots.len(),
{
    if slots.len() == 0 {
        Seq::empty()
    } else {
        slots[0] + slots_bytes(slots.drop_first())
    }
}

/// A slot table of 32-byte entries encodes to 32 bytes per entry.
pub proof fn lemma_slots_bytes_len(slots: Seq<Seq<u8>>)
    requires
        forall|i: int| 0 <= i < slots.len() ==> (#[trigger] slots[i]).len() == 32,
    ensures
        slots_bytes(slots).len() == 32 * slots.len(),
    decreases slots.len(),
{
    if slots.len() > 0 {
        let rest = slots.drop_first();
        assert forall|i: int| 0 <= i < rest.len() implies (#[trigger] rest[i]).len() == 32 by {
            assert(rest[i] == slots[i + 1]);
        }
        lemma_slots_bytes_len(rest);
    }
}

/// Where each byte of an encoded slot table comes from.
pub proof fn lemma_slots_bytes_index(slots: Seq<Seq<u8>>, i: int, j: int)
    requires
        forall|k: int| 0 <= k < slots.len() ==> (#[trigger] slots[k]).len() == 32,
        0 <= i < slots.len(),
        0 <= j < 32,
    ensures
        slots_bytes(slots)[32 * i + j] == slots[i][j],
    decreases slots.len(),
{
    if i == 0 {
        assert(slots_bytes(slots)[j] == slots[0][j]);
    } else {
        let rest = slots.drop_first();
        assert forall|k: int| 0 <= k < rest.len() implies (#[trigger] rest[k]).len() == 32 by {
            assert(rest[k] == slots[k + 1]);
        }
        lemma_slots_bytes_index(rest, i - 1, j);
        assert(rest[i - 1] == slots[i]);
        assert(slots[0].len() == 32);
        lemma_slots_bytes_len(rest);
        assert(slots_bytes(slots)[32 * i + j] == slots_bytes(rest)[32 * i + j - 32]);
        assert(32 * i + j - 32 == 32 * (i - 1) + j);
    }
}

/// Appending a slot appends its bytes.
pub proof fn lemma_slots_bytes_push(slots: Seq<Seq<u8>>, x: Seq<u8>)
    ensures
        slots_bytes(slots.push(x)) == slots_bytes(slots) + x,
    decreases slots.len(),
{
    if slots.len() == 0 {
        assert(slots.push(x)[0] == x);
        assert(slots.push(x).drop_first() =~= Seq::<Seq<u8>>::empty());
        assert(slots_bytes(Seq::<Seq<u8>>::empty()) == Seq::<u8>::empty());
        assert(slots_bytes(slots) == Seq::<u8>::empty());
        assert(slots_bytes(slots.push(x)) == x + Seq::<u8>::empty());
        assert(slots_bytes(slots.push(x)) =~= slots_bytes(slots) + x);
    } else {
        assert(slots.push(x)[0] == slots[0]);
        assert(slots.push(x).drop_first() =~= slots.drop_first().push(x));
        lemma_slots_bytes_push(slots.drop_first(), x);
        assert(slots_bytes(slots.push(x)) == slots[0] + (slots_bytes(slots.drop_first()) + x));
        assert(slots[0] + (slots_bytes(slots.drop_first()) + x) =~= (slots[0] + slots_bytes(
            slots.drop_first(),
        )) + x);
    }
}

/// The exact byte encoding of a mailbox record: each field in order, the
/// slot table last.
pub open spec fn sol_box_bytes(v: SolBoxView) -> Seq<u8> {
    v.owner + v.next_box + v.prev_box + spec_u32_to_le_bytes(v.num_spots) + spec_u32_to_le_bytes(
        v.num_in_use,
    ) + seq![(if v.is_initialized { 1u8 } else { 0u8 })] + slots_bytes(v.message_slots)
}

/// What decoding a record buffer yields: a buffer shorter than the fixed
/// record length fails with `InvalidInstructionData`; a capacity field
/// other than the fixed capacity, or a flag byte other than 0 or 1, fails
/// with `InvalidAccountData`. Bytes past the record length are ignored.
pub open spec fn parse_sol_box(b: Seq<u8>) -> Result<SolBoxView, Sol2SolError> {
    if b.len() < SOL_BOX_LEN {
        Err(Sol2SolError::InvalidInstructionData)
    } else if spec_u32_from_le_bytes(b.subrange(96, 100)) != SOL_BOX_NUM_SPOTS as u32 {
        Err(Sol2SolError::InvalidAccountData)
    } else if b[104] != 0 && b[104] != 1 {
        Err(Sol2SolError::InvalidAccountData)
    } else {
        Ok(SolBoxView {
            owner: b.subrange(0, 32),
            next_box: b.subrange(32, 64),
            prev_box: b.subrange(64, 96),
            num_spots: spec_u32_from_le_bytes(b.subrange(96, 100)),
            num_in_use: spec_u32_from_le_bytes(b.subrange(100, 104)),
            is_initialized: b[104] == 1,
            message_slots: Seq::new(
                SOL_BOX_NUM_SPOTS as nat,
                |i: int| b.subrange(105 + 32 * i, 137 + 32 * i),
            ),
        })
    }
}

impl SolBox {
    /// Decodes a mailbox record, returning exactly what `parse_sol_box`
    /// says for the buffer.
    pub fn unpack_from_slice(src: &Vec<u8>) -> (r: Result<SolBox, Sol2SolError>)
        ensures
            (match parse_sol_box(src@) {
                Ok(v) => r is Ok && r->Ok_0@ == v,
                Err(e) => r is Err && r->Err_0 == e,
            }),
    {
        let n = src.len();
        if n < SOL_BOX_LEN {
            return Err(Sol2SolError::InvalidInstructionData);
        }
        let owner = read_address(src, 0);
        let next_box = read_address(src, 32);
        let prev_box = read_address(src, 64);
        let num_spots = read_u32_le(src, 96);
        if num_spots != 20 {
            return Err(Sol2SolError::InvalidAccountData);
        }
        let num_in_use = read_u32_le(src, 100);
        let flag = src[104];
        if flag != 0 && flag != 1 {
            return Err(Sol2SolError::InvalidAccountData);
        }
        let is_initialized = flag == 1;
        let mut message_slots = Self::get_empty_message_slots();
        let mut i: usize = 0;
        while i < SOL_BOX_NUM_SPOTS
            invariant
                i <= SOL_BOX_NUM_SPOTS,
                src@.len() >= SOL_BOX_LEN,
                forall|k: int|
                    0 <= k < i ==> slots_view(message_slots)[k] == src@.subrange(
                        105 + 32 * k,
                        137 + 32 * k,
                    ),
            decreases SOL_BOX_NUM_SPOTS - i,
        {
            let slot = read_address(src, 105 + 32 * i);
            let ghost pre = message_slots;
            message_slots[i] = slot;
            proof {
                assert(message_slots@ == pre@.update(i as int, slot));
                assert forall|k: int| 0 <= k < i + 1 implies slots_view(message_slots)[k]
                    == src@.subrange(105 + 32 * k, 137 + 32 * k) by {
                    assert(slots_view(message_slots)[k] == message_slots@[k]@);
                    if k == i {
                        assert(message_slots@[k] == slot);
                    } else {
                        assert(message_slots@[k] == pre@[k]);
                        assert(slots_view(pre)[k] == pre@[k]@);
                    }
                }
            }
            i = i + 1;
        }
        let result = SolBox {
            owner,
            next_box,
            prev_box,
            num_spots,
            num_in_use,
            is_initialized,
            message_slots,
        };
        proof {
            let v = parse_sol_box(src@)->Ok_0;
            assert(result@.message_slots =~= v.message_slots);
            assert(result@ =~= v);
        }
        Ok(result)
    }

    /// Encodes the record into the first `SOL_BOX_LEN` bytes of `dst`,
    /// leaving every byte past them alone. Handing in a buffer at least
    /// that long is the caller's contract.
    pub fn pack_into_slice(&self, dst: &mut Vec<u8>)
        requires
            old(dst)@.len() >= SOL_BOX_LEN,
        ensures
            final(dst)@.len() == old(dst)@.len(),
            final(dst)@ == sol_box_bytes(self@) + old(dst)@.skip(SOL_BOX_LEN as int),
    {
        write_address(dst, 0, &self.owner);
        write_address(dst, 32, &self.next_box);
        write_address(dst, 64, &self.prev_box);
        write_u32_le(dst, 96, self.num_spots);
        write_u32_le(dst, 100, self.num_in_use);
        dst[104] = if self.is_initialized {
            1
        } else {
            0
        };
        proof {
            assert(self@.message_slots.take(0) =~= Seq::<Seq<u8>>::empty());
            assert(dst@.subrange(105, 105) =~= slots_bytes(self@.message_slots.take(0)));
        }
        let mut i: usize = 0;
        while i < SOL_BOX_NUM_SPOTS
            invariant
                i <= SOL_BOX_NUM_SPOTS,
                dst@.len() == old(dst)@.len(),
                old(dst)@.len() >= SOL_BOX_LEN,
                forall|k: int| 0 <= k < 32 ==> dst@[k] == self@.owner[k],
                forall|k: int| 0 <= k < 32 ==> dst@[32 + k] == self@.next_box[k],
                forall|k: int| 0 <= k < 32 ==> dst@[64 + k] == self@.prev_box[k],
                forall|k: int| 0 <= k < 4 ==> dst@[96 + k] == spec_u32_to_le_bytes(
                    self@.num_spots,
                )[k],
                forall|k: int| 0 <= k < 4 ==> dst@[100 + k] == spec_u32_to_le_bytes(
                    self@.num_in_use,
                )[k],
                dst@[104] == (if self@.is_initialized { 1u8 } else { 0u8 }),
                dst@.subrange(105, 105 + 32 * (i as int)) == slots_bytes(
                    self@.message_slots.take(i as int),
                ),
                forall|k: int|
                    105 + 32 * (i as int) <= k < dst@.len() ==> dst@[k] == old(dst)@[k],
            decreases SOL_BOX_NUM_SPOTS - i,
        {
            let ghost pre = dst@;
            let slot = self.message_slots[i];
            write_address(dst, 105 + 32 * i, &slot);
            proof {
                assert(slot@ == self@.message_slots[i as int]);
                assert(dst@.subrange(105, 105 + 32 * (i as int) + 32) =~= pre.subrange(
                    105,
                    105 + 32 * (i as int),
                ) + self@.message_slots[i as int]);
                assert(self@.message_slots.take(i as int + 1) =~= self@.message_slots.take(
                    i as int,
                ).push(self@.message_slots[i as int]));
                lemma_slots_bytes_push(
                    self@.message_slots.take(i as int),
                    self@.message_slots[i as int],
                );
            }
            i = i + 1;
        }
        proof {
            assert(self@.message_slots.take(20) =~= self@.message_slots);
            assert forall|k: int| 0 <= k < self@.message_slots.len() implies (
            #[trigger] self@.message_slots[k]).len() == 32 by {
                assert(self@.message_slots[k] == self.message_slots@[k]@);
            }
            lemma_slots_bytes_len(self@.message_slots);
            let target = sol_box_bytes(self@) + old(dst)@.skip(SOL_BOX_LEN as int);
            assert forall|k: int| 0 <= k < dst@.len() implies dst@[k] == target[k] by {
                if 105 <= k < 745 {
                    assert(dst@[k] == dst@.subrange(105, 745)[k - 105]);
                    assert(dst@.subrange(105, 745)[k - 105] == slots_bytes(
                        self@.message_slots,
                    )[k - 105]);
                }
            }
            assert(dst@ =~= target);
        }
    }
}

/// Fixed header length of a message record: recipient, sender, size.
pub const FIXED_MSG_SIZE: usize = 68;

/// The exact byte encoding of a message record: recipient, sender, the
/// declared size, then the message's UTF-8 bytes with no padding.
pub open spec fn message_bytes(
    recipient: Seq<u8>,
    sender: Seq<u8>,
    msg_size: u32,
    msg: Seq<char>,
) -> Seq<u8> {
    recipient + sender + spec_u32_to_le_bytes(msg_size) + encode_utf8(msg)
}

/// What decoding a message buffer yields: a buffer without the full fixed
/// header fails with `InvalidInstructionData`; the declared size is
/// trusted and that many payload bytes are read; payload bytes that are
/// not valid UTF-8 fail with `InvalidAccountData`.
pub open spec fn parse_message(b: Seq<u8>) -> Result<(Seq<u8>, Seq<u8>, u32, Seq<char>),
    Sol2SolError,
> {
    if b.len() < FIXED_MSG_SIZE {
        Err(Sol2SolError::InvalidInstructionData)
    } else {
        let size = spec_u32_from_le_bytes(b.subrange(64, 68));
        let payload = b.subrange(68, 68 + size as int);
        if !valid_utf8(payload) {
            Err(Sol2SolError::InvalidAccountData)
        } else {
            Ok((b.subrange(0, 32), b.subrange(32, 64), size, decode_utf8(payload)))
        }
    }
}

/// Encodes a message record into `dst`, which must have exactly the fixed
/// header plus the message's UTF-8 bytes; that sizing is the caller's
/// contract.
pub fn pack_message_into(
    recipient: &Address,
    sender: &Address,
    msg_size: u32,
    msg_string: &String,
    dst: &mut Vec<u8>,
)
    requires
        old(dst)@.len() == FIXED_MSG_SIZE + encode_utf8(msg_string@).len(),
    ensures
        final(dst)@ == message_bytes(recipient@, sender@, msg_size, msg_string@),
{
    write_address(dst, 0, recipient);
    write_address(dst, 32, sender);
    write_u32_le(dst, 64, msg_size);
    let text = string_bytes(msg_string);
    let count = text.len();
    let n = dst.len();
    let mut i: usize = 0;
    while i < count
        invariant
            i <= count,
            count == text@.len(),
            text@ == encode_utf8(msg_string@),
            dst@.len() == FIXED_MSG_SIZE + text@.len(),
            dst@.len() <= usize::MAX,
            forall|k: int| 0 <= k < 32 ==> dst@[k] == recipient@[k],
            forall|k: int| 0 <= k < 32 ==> dst@[32 + k] == sender@[k],
            forall|k: int| 0 <= k < 4 ==> dst@[64 + k] == spec_u32_to_le_bytes(msg_size)[k],
            forall|m: int| 0 <= m < i ==> dst@[68 + m] == text@[m],
        decreases count - i,
    {
        dst[FIXED_MSG_SIZE + i] = text[i];
        i = i + 1;
    }
    proof {
        assert(dst@ =~= message_bytes(recipient@, sender@, msg_size, msg_string@));
    }
}

/// Decodes a message record, returning exactly what `parse_message` says.
/// The declared size is trusted: the buffer holding that many payload
/// bytes is the caller's contract, not a decode-time check.
pub fn unpack_message_from(src: &Vec<u8>) -> (r: Result<(Address, Address, u32, String),
    Sol2SolError,
>)
    requires
        src@.len() >= FIXED_MSG_SIZE ==> FIXED_MSG_SIZE + spec_u32_from_le_bytes(
            src@.subrange(64, 68),
        ) as int <= src@.len(),
    ensures
        (match parse_message(src@) {
            Ok(v) => r is Ok && r->Ok_0.0@ == v.0 && r->Ok_0.1@ == v.1 && r->Ok_0.2 == v.2
                && r->Ok_0.3@ == v.3,
            Err(e) => r is Err && r->Err_0 == e,
        }),
{
    let n = src.len();
    if n < FIXED_MSG_SIZE {
        return Err(Sol2SolError::InvalidInstructionData);
    }
    let recipient = read_address(src, 0);
    let sender = read_address(src, 32);
    let msg_size = read_u32_le(src, 64);
    let end: usize = FIXED_MSG_SIZE + msg_size as usize;
    let mut payload: Vec<u8> = Vec::new();
    let mut i: usize = FIXED_MSG_SIZE;
    while i < end
        invariant
            FIXED_MSG_SIZE <= i <= end,
            end <= n == src@.len(),
            payload@ =~= src@.subrange(FIXED_MSG_SIZE as int, i as int),
        decreases end - i,
    {
        payload.push(src[i]);
        i = i + 1;
    }
    proof {
        assert(payload@ =~= src@.subrange(68, 68 + msg_size as int));
    }
    match bytes_to_string(payload) {
        Some(msg_string) => {
            proof {
                encode_utf8_decode_utf8(msg_string@);
            }
            Ok((recipient, sender, msg_size, msg_string))
        },
        None => Err(Sol2SolError::InvalidAccountData),
    }
}

/// Round trip: decoding the encoding of any well-formed mailbox record
/// yields that record back.
pub proof fn lemma_sol_box_round_trip(v: SolBoxView)
    requires
        wf_sol_box(v),
    ensures
        parse_sol_box(sol_box_bytes(v)) == Ok::<SolBoxView, Sol2SolError>(v),
{
    vstd::bytes::lemma_auto_spec_u32_to_from_le_bytes();
    let b = sol_box_bytes(v);
    lemma_slots_bytes_len(v.message_slots);
    assert(b.len() == 745);
    assert(b.subrange(96, 100) =~= spec_u32_to_le_bytes(v.num_spots));
    assert(b[104] == (if v.is_initialized { 1u8 } else { 0u8 }));
    assert(b.subrange(0, 32) =~= v.owner);
    assert(b.subrange(32, 64) =~= v.next_box);
    assert(b.subrange(64, 96) =~= v.prev_box);
    assert(b.subrange(100, 104) =~= spec_u32_to_le_bytes(v.num_in_use));
    assert forall|i: int| 0 <= i < 20 implies b.subrange(105 + 32 * i, 137 + 32 * i)
        == v.message_slots[i] by {
        assert forall|j: int| 0 <= j < 32 implies b.subrange(105 + 32 * i, 137 + 32 * i)[j]
            == v.message_slots[i][j] by {
            lemma_slots_bytes_index(v.message_slots, i, j);
            assert(b[105 + 32 * i + j] == slots_bytes(v.message_slots)[32 * i + j]);
        }
        assert(b.subrange(105 + 32 * i, 137 + 32 * i) =~= v.message_slots[i]);
    }
    let parsed = parse_sol_box(b)->Ok_0;
    assert(parsed.message_slots =~= v.message_slots);
    assert(parsed =~= v);
}

/// Capacity invariant: a record buffer whose encoded capacity field is not
/// the fixed capacity is rejected with `InvalidAccountData`.
pub proof fn lemma_capacity_mismatch_rejected(b: Seq<u8>)
    requires
        b.len() >= SOL_BOX_LEN,
        spec_u32_from_le_bytes(b.subrange(96, 100)) != SOL_BOX_NUM_SPOTS as u32,
    ensures
        parse_sol_box(b) == Err::<SolBoxView, Sol2SolError>(Sol2SolError::InvalidAccountData),
{
}

/// Truncation invariant: a record buffer shorter than the fixed record
/// length is rejected with `InvalidInstructionData`.
pub proof fn lemma_truncated_record_rejected(b: Seq<u8>)
    requires
        b.len() < SOL_BOX_LEN,
    ensures
        parse_sol_box(b) == Err::<SolBoxView, Sol2SolError>(Sol2SolError::InvalidInstructionData),
{
}

/// Round trip: decoding the encoding of a message record whose declared
/// size is the byte length of its text yields the same fields back.
pub proof fn lemma_message_round_trip(
    recipient: Seq<u8>,
    sender: Seq<u8>,
    msg_size: u32,
    msg: Seq<char>,
)
    requires
        recipient.len() == 32,
        sender.len() == 32,
        msg_size == encode_utf8(msg).len(),
    ensures
        parse_message(message_bytes(recipient, sender, msg_size, msg)) == Ok::<
            (Seq<u8>, Seq<u8>, u32, Seq<char>),
            Sol2SolError,
        >((recipient, sender, msg_size, msg)),
{
    vstd::bytes::lemma_auto_spec_u32_to_from_le_bytes();
    encode_utf8_valid_utf8(msg);
    encode_utf8_decode_utf8(msg);
    let b = message_bytes(recipient, sender, msg_size, msg);
    assert(b.subrange(64, 68) =~= spec_u32_to_le_bytes(msg_size));
    assert(b.subrange(0, 32) =~= recipient);
    assert(b.subrange(32, 64) =~= sender);
    assert(b.subrange(68, 68 + msg_size as int) =~= encode_utf8(msg));
}

/// Truncation invariant: a message buffer without the full fixed header is
/// rejected with `InvalidInstructionData`.
pub proof fn lemma_truncated_message_rejected(b: Seq<u8>)
    requires
        b.len() < FIXED_MSG_SIZE,
    ensures
        parse_message(b) == Err::<(Seq<u8>, Seq<u8>, u32, Seq<char>), Sol2SolError>(
            Sol2SolError::InvalidInstructionData,
        ),
{
}

/// The record a fresh initialization writes: every slot empty, nothing in
/// use, marked initialized.
pub open spec fn fresh_sol_box(
    owner: Seq<u8>,
    num_spots: u32,
    next_box: Seq<u8>,
    prev_box: Seq<u8>,
) -> SolBoxView {
    SolBoxView {
        owner,
        next_box,
        prev_box,
        num_spots,
        num_in_use: 0,
        is_initialized: true,
        message_slots: Seq::new(SOL_BOX_NUM_SPOTS as nat, |i: int| null_address()),
    }
}

/// The record after filing `message_key`: the first free slot holds the
/// key and one more slot is counted in use.
pub open spec fn filed_sol_box(v: SolBoxView, message_key: Seq<u8>) -> SolBoxView {
    SolBoxView {
        message_slots: v.message_slots.update(
            find_slot(v.message_slots, null_address()),
            message_key,
        ),
        num_in_use: if v.num_in_use < u32::MAX {
            (v.num_in_use + 1) as u32
        } else {
            v.num_in_use
        },
        ..v
    }
}

/// The record after freeing `message_id`: the first slot holding it is
/// reset to the sentinel and one slot less is counted in use.
pub open spec fn freed_sol_box(v: SolBoxView, message_id: Seq<u8>) -> SolBoxView {
    SolBoxView {
        message_slots: v.message_slots.update(
            find_slot(v.message_slots, message_id),
            null_address(),
        ),
        num_in_use: if v.num_in_use > 0 {
            (v.num_in_use - 1) as u32
        } else {
            0
        },
        ..v
    }
}

/// UTF-8 invariant: a message whose payload bytes are not a valid UTF-8
/// encoding is rejected with `InvalidAccountData`.
pub proof fn lemma_invalid_utf8_message_rejected(b: Seq<u8>)
    requires
        b.len() >= FIXED_MSG_SIZE,
        !valid_utf8(
            b.subrange(68, 68 + spec_u32_from_le_bytes(b.subrange(64, 68)) as int),
        ),
    ensures
        parse_message(b) == Err::<(Seq<u8>, Seq<u8>, u32, Seq<char>), Sol2SolError>(
            Sol2SolError::InvalidAccountData,
        ),
{
}

} // verus!
