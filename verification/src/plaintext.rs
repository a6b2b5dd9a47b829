//! Record plaintexts: the contents of a record as they are encrypted.

use vstd::prelude::*;
use vstd::slice::{slice_subrange, slice_to_vec};

use crate::account::{address_read, is_address, law_addresses_are_read, Address};
use crate::amount::{
    amount_bytes, amount_read, law_amount_read_gives_back, law_amount_read_is_canonical,
    law_amounts_are_read, twos_complement, AleoAmount,
};
use crate::bytes::{append, lemma_le_bytes_len};
use crate::element::{viewed, ProgramId};
use crate::error::RecordError;
use crate::payload::{law_payloads_are_read, payload_read, Payload};
use crate::record::Record;
use crate::schemes::is_public_key;
use crate::testnet2::RECORD_PAYLOAD_SIZE_IN_BYTES;

verus! {

/// The largest number of bytes in a record.
pub const MAX_RECORD_SIZE_IN_BYTES: usize = 65535;

/// The contents of a record: its owner, value and payload.
pub type Contents = (Seq<u8>, i64, Option<Seq<u8>>);

/// A record of this value, payload and program is a dummy.
pub open spec fn is_dummy(
    value: i64,
    payload: Option<Seq<u8>>,
    program_id: Option<Seq<u8>>,
) -> bool {
    value == 0 && payload is None && program_id is None
}

/// A flag as a byte.
pub open spec fn flag_byte(flag: bool) -> u8 {
    if flag {
        1
    } else {
        0
    }
}

/// The parts of the plaintext of a record: its owner, whether it is a dummy, its value, and its
/// payload if it has one.
pub open spec fn plaintext_of(
    owner: Seq<u8>,
    value: i64,
    payload: Option<Seq<u8>>,
    program_id: Option<Seq<u8>>,
) -> Seq<Seq<u8>> {
    let head = seq![
        owner,
        seq![flag_byte(is_dummy(value, payload, program_id))],
        amount_bytes(value),
    ];
    match payload {
        Some(payload) => head.push(payload),
        None => head,
    }
}

/// The parts of a plaintext as byte strings.
pub open spec fn parts_view(parts: Seq<Vec<u8>>) -> Seq<Seq<u8>> {
    Seq::new(parts.len(), |i: int| parts[i]@)
}

/// The number of bytes in all the parts of a plaintext.
pub open spec fn total_len(parts: Seq<Seq<u8>>) -> nat
    decreases parts.len(),
{
    if parts.len() == 0 {
        0
    } else {
        total_len(parts.drop_last()) + parts.last().len()
    }
}

/// What reading one byte off the front of `bytes` comes to.
pub open spec fn byte_read(bytes: Seq<u8>) -> Result<u8, RecordError> {
    if bytes.len() == 0 {
        Err(RecordError::UnexpectedEof)
    } else {
        Ok(bytes[0])
    }
}

/// The given contents, if `flag` tells whether they are those of a dummy.
pub open spec fn with_flag_checked(
    contents: Contents,
    flag: u8,
    program_id: Option<Seq<u8>>,
) -> Result<Contents, RecordError> {
    if flag == flag_byte(is_dummy(contents.1, contents.2, program_id)) {
        Ok(contents)
    } else {
        Err(RecordError::IncorrectDummyFlag)
    }
}

/// What reading the contents of a record of the given program from the parts of its plaintext
/// comes to.
pub open spec fn plaintext_read(parts: Seq<Seq<u8>>, program_id: Option<Seq<u8>>) -> Result<
    Contents,
    RecordError,
> {
    if parts.len() != 3 && parts.len() != 4 {
        Err(RecordError::InvalidPlaintextSize)
    } else {
        match (address_read(parts[0]), byte_read(parts[1]), amount_read(parts[2])) {
            (Err(e), _, _) => Err(e),
            (_, Err(e), _) => Err(e),
            (_, _, Err(e)) => Err(e),
            (Ok(owner), Ok(flag), Ok(value)) => if parts.len() == 3 {
                with_flag_checked((owner, value, None), flag, program_id)
            } else {
                match payload_read(parts[3]) {
                    Err(e) => Err(e),
                    Ok(payload) => with_flag_checked(
                        (owner, value, Some(payload)),
                        flag,
                        program_id,
                    ),
                }
            },
        }
    }
}

/// The parts of a plaintext one after the other.
pub open spec fn joined(parts: Seq<Seq<u8>>) -> Seq<u8>
    decreases parts.len(),
{
    if parts.len() == 0 {
        Seq::empty()
    } else {
        joined(parts.drop_last()) + parts.last()
    }
}

/// The parts that a plaintext was joined from: an owner, a flag, a value, and whatever follows. A
/// part that nothing is left for is missing.
pub open spec fn split(bytes: Seq<u8>) -> Seq<Seq<u8>> {
    if bytes.len() <= 32 {
        seq![bytes]
    } else if bytes.len() <= 33 {
        seq![bytes.take(32), bytes.skip(32)]
    } else if bytes.len() <= 41 {
        seq![bytes.take(32), bytes.subrange(32, 33), bytes.skip(33)]
    } else {
        seq![bytes.take(32), bytes.subrange(32, 33), bytes.subrange(33, 41), bytes.skip(41)]
    }
}

/// `contents` are those of some record.
pub open spec fn are_contents(contents: Contents) -> bool {
    &&& is_address(contents.0)
    &&& contents.2 matches Some(payload) ==> payload.len() == RECORD_PAYLOAD_SIZE_IN_BYTES
}

/// A record is a dummy if and only if it holds no value, no payload and no program.
pub proof fn law_dummies_are_empty(
    value: i64,
    payload: Option<Seq<u8>>,
    program_id: Option<Seq<u8>>,
)
    ensures
        is_dummy(value, payload, program_id) <==> value == 0 && payload == None::<Seq<u8>>
            && program_id == None::<Seq<u8>>,
        flag_byte(true) == 1,
        flag_byte(false) == 0,
{
}

/// A plaintext is made of the owner, of a byte that is one for a record without value, payload and
/// program and zero for any other, of the value, and of the payload if there is one.
pub proof fn law_plaintext_holds_the_contents(
    owner: Seq<u8>,
    value: i64,
    payload: Option<Seq<u8>>,
    program_id: Option<Seq<u8>>,
)
    ensures
        ({
            let parts = plaintext_of(owner, value, payload, program_id);
            let nothing = value == 0 && payload == None::<Seq<u8>> && program_id == None::<Seq<u8>>;
            &&& parts.len() == if payload is Some {
                4nat
            } else {
                3nat
            }
            &&& parts[0] == owner
            &&& parts[1] == seq![
                if nothing {
                    1u8
                } else {
                    0u8
                },
            ]
            &&& parts[2] == amount_bytes(value)
            &&& payload is Some ==> Some(parts[3]) == payload
        }),
{
}

/// Contents are read from the parts of a plaintext if and only if these are three or four: an
/// owner, a flag that is one for a record without value, payload and program and zero for any
/// other, a value, and a payload if they are four. Each part may be longer than what is read off
/// it.
pub proof fn law_plaintext_is_read_part_by_part(
    parts: Seq<Seq<u8>>,
    program_id: Option<Seq<u8>>,
    contents: Contents,
)
    ensures
        plaintext_read(parts, program_id) == Ok::<Contents, RecordError>(contents) <==> {
            let (owner, value, payload) = contents;
            let nothing = value == 0 && payload == None::<Seq<u8>> && program_id == None::<Seq<u8>>;
            &&& parts.len() == 3 || parts.len() == 4
            &&& parts[0].len() >= 32
            &&& owner == parts[0].take(32)
            &&& is_public_key(owner)
            &&& parts[1].len() >= 1
            &&& parts[1][0] == if nothing {
                1u8
            } else {
                0u8
            }
            &&& parts[2].len() >= 8
            &&& amount_bytes(value) == parts[2].take(8)
            &&& parts.len() == 3 ==> payload == None::<Seq<u8>>
            &&& parts.len() == 4 ==> parts[3].len() >= 128 && payload == Some(parts[3].take(128))
        },
{
    if parts.len() >= 3 {
        law_amounts_are_read(parts[2], contents.1);
        law_addresses_are_read(parts[0]);
    }
    if parts.len() == 4 {
        law_payloads_are_read(parts[3]);
    }
}

/// A plaintext that no contents are read from is refused for the first of these reasons: it does
/// not have three or four parts, its owner is too short or no address, another part is too short,
/// or its flag is wrong.
pub proof fn law_plaintext_is_refused_for_a_reason(
    parts: Seq<Seq<u8>>,
    program_id: Option<Seq<u8>>,
)
    ensures
        match plaintext_read(parts, program_id) {
            Err(e) => e == if parts.len() != 3 && parts.len() != 4 {
                RecordError::InvalidPlaintextSize
            } else if parts[0].len() < 32 {
                RecordError::UnexpectedEof
            } else if !is_public_key(parts[0].take(32)) {
                RecordError::InvalidAddress
            } else if parts[1].len() < 1 || parts[2].len() < 8 || (parts.len() == 4
                && parts[3].len() < 128) {
                RecordError::UnexpectedEof
            } else {
                RecordError::IncorrectDummyFlag
            },
            Ok(_) => true,
        },
{
}

/// The parts of a plaintext are joined one after the other, none of them changed.
pub proof fn law_joining_keeps_the_parts(a: Seq<Seq<u8>>, b: Seq<Seq<u8>>)
    ensures
        joined(a + b) == joined(a) + joined(b),
        joined(Seq::empty()) == Seq::<u8>::empty(),
        forall|part: Seq<u8>| #[trigger] joined(seq![part]) == part,
    decreases b.len(),
{
    assert(joined(Seq::<Seq<u8>>::empty()) =~= Seq::<u8>::empty());
    assert forall|part: Seq<u8>| #[trigger] joined(seq![part]) == part by {
        assert(seq![part].drop_last() =~= Seq::<Seq<u8>>::empty());
        assert(joined(seq![part]) =~= part);
    }
    if b.len() == 0 {
        assert(a + b =~= a);
        assert(joined(a) + joined(b) =~= joined(a));
    } else {
        law_joining_keeps_the_parts(a, b.drop_last());
        assert((a + b).drop_last() =~= a + b.drop_last());
        assert(joined(a + b) =~= joined(a) + joined(b));
    }
}

/// The number of bytes in a plaintext is the sum of those in its parts.
pub proof fn law_lengths_add_up(a: Seq<Seq<u8>>, b: Seq<Seq<u8>>)
    ensures
        total_len(a + b) == total_len(a) + total_len(b),
        total_len(Seq::empty()) == 0,
        forall|part: Seq<u8>| #[trigger] total_len(seq![part]) == part.len(),
    decreases b.len(),
{
    assert forall|part: Seq<u8>| #[trigger] total_len(seq![part]) == part.len() by {
        assert(seq![part].drop_last() =~= Seq::<Seq<u8>>::empty());
        assert(total_len(Seq::<Seq<u8>>::empty()) == 0);
    }
    if b.len() == 0 {
        assert(a + b =~= a);
    } else {
        law_lengths_add_up(a, b.drop_last());
        assert((a + b).drop_last() =~= a + b.drop_last());
    }
}

/// Every plaintext is split into parts that join to it again: the first 32 bytes, the next one, the
/// next eight, and all others. There are as many parts as there are bytes for.
pub proof fn law_splitting_loses_nothing(bytes: Seq<u8>)
    ensures
        joined(split(bytes)) == bytes,
        split(bytes).len() == if bytes.len() > 41 {
            4nat
        } else if bytes.len() > 33 {
            3nat
        } else if bytes.len() > 32 {
            2nat
        } else {
            1nat
        },
        bytes.len() >= 32 ==> split(bytes)[0].len() == 32,
        bytes.len() >= 33 ==> split(bytes)[1].len() == 1,
        bytes.len() >= 41 ==> split(bytes)[2].len() == 8,
{
    let parts = split(bytes);
    reveal_with_fuel(joined, 5);
    if parts.len() == 1 {
        assert(parts.drop_last() =~= Seq::<Seq<u8>>::empty());
    } else if parts.len() == 2 {
        assert(parts.drop_last() =~= seq![parts[0]]);
        assert(parts.drop_last().drop_last() =~= Seq::<Seq<u8>>::empty());
    } else if parts.len() == 3 {
        assert(parts.drop_last() =~= seq![parts[0], parts[1]]);
        assert(parts.drop_last().drop_last() =~= seq![parts[0]]);
        assert(parts.drop_last().drop_last().drop_last() =~= Seq::<Seq<u8>>::empty());
    } else {
        assert(parts.drop_last() =~= seq![parts[0], parts[1], parts[2]]);
        assert(parts.drop_last().drop_last() =~= seq![parts[0], parts[1]]);
        assert(parts.drop_last().drop_last().drop_last() =~= seq![parts[0]]);
        assert(parts.drop_last().drop_last().drop_last().drop_last() =~= Seq::<Seq<u8>>::empty());
    }
    assert(joined(parts) =~= bytes);
}

/// Parts are viewed as the bytes that they hold.
pub proof fn law_parts_are_viewed(parts: Seq<Vec<u8>>)
    ensures
        parts_view(parts).len() == parts.len(),
        forall|i: int| 0 <= i < parts.len() ==> #[trigger] parts_view(parts)[i] == parts[i]@,
{
}

/// The contents of a record are read back from its plaintext.
pub proof fn law_plaintext_read_gives_back(contents: Contents, program_id: Option<Seq<u8>>)
    requires
        are_contents(contents),
    ensures
        plaintext_read(
            plaintext_of(contents.0, contents.1, contents.2, program_id),
            program_id,
        ) == Ok::<Contents, RecordError>(contents),
{
    law_plaintext_read_under_another_program(contents, program_id, program_id);
}

/// The plaintext of a record of one program is read as that of another one if and only if that
/// makes no difference to whether the record is a dummy.
pub proof fn law_plaintext_read_under_another_program(
    contents: Contents,
    program_id: Option<Seq<u8>>,
    other: Option<Seq<u8>>,
)
    requires
        are_contents(contents),
    ensures
        plaintext_read(plaintext_of(contents.0, contents.1, contents.2, program_id), other) == if (
        is_dummy(contents.1, contents.2, program_id) == is_dummy(contents.1, contents.2, other)) {
            Ok::<Contents, RecordError>(contents)
        } else {
            Err::<Contents, RecordError>(RecordError::IncorrectDummyFlag)
        },
{
    let (owner, value, payload) = contents;
    assert(owner.take(32) =~= owner);
    law_amount_read_gives_back(value, Seq::empty());
    assert(amount_bytes(value) + Seq::<u8>::empty() =~= amount_bytes(value));
    if let Some(payload) = payload {
        assert(payload.take(RECORD_PAYLOAD_SIZE_IN_BYTES as int) =~= payload);
    }
}

/// A plaintext that is read tells by its flag whether its contents are those of a dummy.
pub proof fn law_flag_tells_dummies(parts: Seq<Seq<u8>>, program_id: Option<Seq<u8>>)
    requires
        plaintext_read(parts, program_id) is Ok,
    ensures
        ({
            let contents = plaintext_read(parts, program_id)->Ok_0;
            parts[1][0] == flag_byte(is_dummy(contents.1, contents.2, program_id))
        }),
{
}

/// A plaintext whose parts have the sizes of their contents is the only one of those contents.
pub proof fn law_plaintext_is_canonical(parts: Seq<Seq<u8>>, program_id: Option<Seq<u8>>)
    requires
        plaintext_read(parts, program_id) is Ok,
        parts[0].len() == 32,
        parts[1].len() == 1,
        parts[2].len() == 8,
        parts.len() == 4 ==> parts[3].len() == RECORD_PAYLOAD_SIZE_IN_BYTES,
    ensures
        ({
            let contents = plaintext_read(parts, program_id)->Ok_0;
            plaintext_of(contents.0, contents.1, contents.2, program_id) == parts
        }),
{
    let contents = plaintext_read(parts, program_id)->Ok_0;
    law_amount_read_is_canonical(parts[2]);
    assert(parts[0].take(32) =~= parts[0]);
    assert(seq![parts[1][0]] =~= parts[1]);
    assert(parts[2].take(8) =~= parts[2]);
    if parts.len() == 4 {
        assert(parts[3].take(RECORD_PAYLOAD_SIZE_IN_BYTES as int) =~= parts[3]);
    }
    assert(plaintext_of(contents.0, contents.1, contents.2, program_id) =~= parts);
}

/// The plaintext of a record is split into the parts that it was joined from.
pub proof fn law_split_undoes_join(contents: Contents, program_id: Option<Seq<u8>>)
    requires
        are_contents(contents),
    ensures
        split(joined(plaintext_of(contents.0, contents.1, contents.2, program_id)))
            == plaintext_of(contents.0, contents.1, contents.2, program_id),
{
    let (owner, value, payload) = contents;
    let flag = seq![flag_byte(is_dummy(value, payload, program_id))];
    let head = seq![owner, flag, amount_bytes(value)];
    let head_bytes = owner + flag + amount_bytes(value);
    lemma_le_bytes_len(twos_complement(value), 8);
    assert(joined(head) =~= head_bytes) by {
        reveal_with_fuel(joined, 4);
        assert(head.drop_last() =~= seq![owner, flag]);
        assert(head.drop_last().drop_last() =~= seq![owner]);
        assert(head.drop_last().drop_last().drop_last() =~= Seq::<Seq<u8>>::empty());
    }
    let bytes = joined(plaintext_of(owner, value, payload, program_id));
    if let Some(payload) = payload {
        assert(head.push(payload).drop_last() =~= head);
        assert(bytes == head_bytes + payload);
        assert(bytes.skip(41) =~= payload);
        assert(bytes.subrange(33, 41) =~= amount_bytes(value));
    } else {
        assert(bytes == head_bytes);
        assert(bytes.skip(33) =~= amount_bytes(value));
    }
    assert(bytes.take(32) =~= owner);
    assert(bytes.subrange(32, 33) =~= flag);
    assert(split(bytes) =~= plaintext_of(owner, value, payload, program_id));
}

/// The parts of a plaintext take as many bytes joined as they do apart.
pub proof fn lemma_joined_len(parts: Seq<Seq<u8>>)
    ensures
        joined(parts).len() == total_len(parts),
    decreases parts.len(),
{
    if parts.len() > 0 {
        lemma_joined_len(parts.drop_last());
    }
}

/// Joins the parts of a plaintext.
pub fn join(parts: &Vec<Vec<u8>>) -> (bytes: Vec<u8>)
    ensures
        bytes@ == joined(parts_view(parts@)),
{
    let ghost all = parts_view(parts@);
    let mut bytes: Vec<u8> = Vec::new();
    let mut i: usize = 0;
    assert(all.take(0) =~= Seq::<Seq<u8>>::empty());
    while i < parts.len()
        invariant
            i <= parts@.len(),
            all == parts_view(parts@),
            bytes@ == joined(all.take(i as int)),
        decreases parts@.len() - i,
    {
        append(&mut bytes, &parts[i]);
        assert(all.take(i + 1).drop_last() =~= all.take(i as int));
        i = i + 1;
    }
    assert(all.take(i as int) =~= all);
    bytes
}

/// Splits a plaintext into its parts.
pub fn split_parts(bytes: &[u8]) -> (parts: Vec<Vec<u8>>)
    ensures
        parts_view(parts@) == split(bytes@),
{
    let len: usize = bytes.len();
    let mut parts: Vec<Vec<u8>> = Vec::new();
    if len <= 32 {
        parts.push(slice_to_vec(bytes));
    } else {
        parts.push(slice_to_vec(slice_subrange(bytes, 0, 32)));
        if len <= 33 {
            parts.push(slice_to_vec(slice_subrange(bytes, 32, len)));
        } else {
            parts.push(slice_to_vec(slice_subrange(bytes, 32, 33)));
            if len <= 41 {
                parts.push(slice_to_vec(slice_subrange(bytes, 33, len)));
            } else {
                parts.push(slice_to_vec(slice_subrange(bytes, 33, 41)));
                parts.push(slice_to_vec(slice_subrange(bytes, 41, len)));
            }
        }
    }
    assert(parts_view(parts@) =~= split(bytes@));
    parts
}

impl Record {
    /// Encodes the contents of a record into the parts of its plaintext.
    pub fn encode_plaintext(
        owner: Address,
        value: AleoAmount,
        payload: &Option<Payload>,
        program_id: Option<ProgramId>,
    ) -> (r: Result<Vec<Vec<u8>>, RecordError>)
        ensures
            match r {
                Ok(parts) => parts_view(parts@) == plaintext_of(
                    owner@,
                    value@,
                    viewed(*payload),
                    viewed(program_id),
                ),
                Err(_) => false,
            },
    {
        // Determine if the record is a dummy.
        let is_dummy: bool = value.is_zero() && payload.is_none() && program_id.is_none();

        // Total = 32 + 1 + 8 = 41 bytes
        let mut owner_bytes: Vec<u8> = Vec::new();
        owner.write_le(&mut owner_bytes);
        assert(owner_bytes@ =~= owner@);
        let mut flag_bytes: Vec<u8> = Vec::new();
        flag_bytes.push(if is_dummy { 1 } else { 0 });
        let mut value_bytes: Vec<u8> = Vec::new();
        value.write_le(&mut value_bytes);
        assert(value_bytes@ =~= amount_bytes(value@));
        let mut parts: Vec<Vec<u8>> = Vec::new();
        parts.push(owner_bytes);
        parts.push(flag_bytes);
        parts.push(value_bytes);

        if let Some(payload) = payload {
            // Total = 41 + 128 = 169 bytes
            let mut payload_bytes: Vec<u8> = Vec::new();
            payload.write_le(&mut payload_bytes);
            assert(payload_bytes@ =~= payload@);
            parts.push(payload_bytes);
        }
        proof {
            let plaintext = plaintext_of(owner@, value@, viewed(*payload), viewed(program_id));
            assert(parts_view(parts@) =~= plaintext);
            lemma_plaintext_len(owner@, value@, viewed(*payload), viewed(program_id));
        }

        // Ensure the record bytes are within the permitted size.
        Record::within_size_limit(parts)
    }

    /// Returns the given plaintext if it is within the permitted size.
    pub fn within_size_limit(parts: Vec<Vec<u8>>) -> (r: Result<Vec<Vec<u8>>, RecordError>)
        ensures
            match r {
                Ok(same) => same == parts && total_len(parts_view(parts@)) <= 65535,
                Err(e) => e == RecordError::RecordTooLarge(parts.len()) && total_len(
                    parts_view(parts@),
                ) > 65535,
            },
    {
        let ghost all = parts_view(parts@);
        let mut total: usize = 0;
        let mut i: usize = 0;
        while i < parts.len()
            invariant
                i <= parts@.len(),
                all == parts_view(parts@),
                total == total_len(all.take(i as int)),
                total <= MAX_RECORD_SIZE_IN_BYTES,
            decreases parts@.len() - i,
        {
            let len: usize = parts[i].len();
            proof {
                assert(all.take(i + 1).drop_last() =~= all.take(i as int));
                lemma_total_len_grows(all, i + 1);
            }
            if len > MAX_RECORD_SIZE_IN_BYTES - total {
                return Err(RecordError::RecordTooLarge(parts.len()));
            }
            total = total + len;
            i = i + 1;
        }
        assert(all.take(i as int) =~= all);
        Ok(parts)
    }

    /// Decodes the parts of a plaintext into the contents of a record of the given program.
    pub fn decode_plaintext(plaintext: &[Vec<u8>], program_id: &Option<ProgramId>) -> (r: Result<
        (Address, AleoAmount, Option<Payload>),
        RecordError,
    >)
        ensures
            match r {
                Ok((owner, value, payload)) => plaintext_read(
                    parts_view(plaintext@),
                    viewed(*program_id),
                ) == Ok::<Contents, RecordError>((owner@, value@, viewed(payload))),
                Err(e) => plaintext_read(parts_view(plaintext@), viewed(*program_id)) == Err::<
                    Contents,
                    RecordError,
                >(e),
            },
    {
        if plaintext.len() < 3 || plaintext.len() > 4 {
            return Err(RecordError::InvalidPlaintextSize);
        }
        let owner: Address = match Address::read_le(&plaintext[0]) {
            Ok(owner) => owner,
            Err(e) => return Err(e),
        };
        if plaintext[1].len() == 0 {
            return Err(RecordError::UnexpectedEof);
        }
        let is_dummy: u8 = plaintext[1][0];
        let value: AleoAmount = match AleoAmount::read_le(&plaintext[2]) {
            Ok(value) => value,
            Err(e) => return Err(e),
        };
        let payload: Option<Payload> = if plaintext.len() == 3 {
            None
        } else {
            match Payload::read_le(&plaintext[3]) {
                Ok(payload) => Some(payload),
                Err(e) => return Err(e),
            }
        };

        // Ensure the dummy flag in the record is correct.
        let expected_dummy: bool = value.is_zero() && payload.is_none() && program_id.is_none();

        if is_dummy == (if expected_dummy { 1u8 } else { 0u8 }) {
            Ok((owner, value, payload))
        } else {
            Err(RecordError::IncorrectDummyFlag)
        }
    }
}

proof fn lemma_total_len_grows(parts: Seq<Seq<u8>>, i: int)
    requires
        0 <= i <= parts.len(),
    ensures
        total_len(parts.take(i)) <= total_len(parts),
    decreases parts.len() - i,
{
    if i < parts.len() {
        lemma_total_len_grows(parts, i + 1);
        assert(parts.take(i + 1).drop_last() =~= parts.take(i));
    } else {
        assert(parts.take(i) =~= parts);
    }
}

/// The plaintext of a record without a payload takes as many bytes as an owner, a flag and a value
/// do; a payload comes on top.
pub proof fn lemma_plaintext_len(
    owner: Seq<u8>,
    value: i64,
    payload: Option<Seq<u8>>,
    program_id: Option<Seq<u8>>,
)
    ensures
        total_len(plaintext_of(owner, value, payload, program_id)) == owner.len() + 9 + match payload {
            Some(payload) => payload.len(),
            None => 0,
        },
{
    reveal_with_fuel(total_len, 5);
    let flag = seq![flag_byte(is_dummy(value, payload, program_id))];
    let head = seq![owner, flag, amount_bytes(value)];
    lemma_le_bytes_len(twos_complement(value), 8);
    assert(head.drop_last() =~= seq![owner, flag]);
    assert(head.drop_last().drop_last() =~= seq![owner]);
    assert(head.drop_last().drop_last().drop_last() =~= Seq::<Seq<u8>>::empty());
    if let Some(payload) = payload {
        assert(head.push(payload).drop_last() =~= head);
    }
}

} // verus!
