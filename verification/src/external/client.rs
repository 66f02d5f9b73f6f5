use vstd::prelude::*;

use crate::{
    account::{Entry, Id, Operation},
    commit::Payload,
    crypto::{Digest, Signature},
    prepare::Prepare,
};

verus! {

/// The payload of the benchmark withdrawal of account `id` at `height`: it
/// withdraws nothing towards `id` itself, at the previous slot.
pub open spec fn spec_withdrawal(id: Id, height: u64) -> Payload
    recommends
        height >= 1,
{
    Payload::new_spec(
        Entry { id, height },
        Operation::Withdraw { beneficiary: id, slot: (height - 1) as u64, amount: 0 },
    )
}

/// The benchmark withdrawal of account `id` at `height` (see `spec_withdrawal`).
pub fn withdrawal(id: Id, height: u64) -> (result: Payload)
    requires
        height >= 1,
    ensures
        result == spec_withdrawal(id, height),
{
    Payload::new(Entry { id, height }, Operation::withdraw(id, height - 1, 0))
}

/// The benchmark withdrawals of the accounts `ids` at `height + 1`, in order:
/// the payloads of a batch of prepare requests. A batch holds at least one account.
pub fn withdrawals(ids: &Vec<Id>, height: u64) -> (result: Vec<Payload>)
    requires
        ids@.len() > 0,
        height < u64::MAX,
    ensures
        result@.len() == ids@.len(),
        forall|i: int|
            0 <= i < ids@.len() ==> #[trigger] result@[i] == spec_withdrawal(ids@[i], (height + 1) as u64),
{
    let mut result: Vec<Payload> = Vec::new();
    let mut index: usize = 0;
    while index < ids.len()
        invariant
            height < u64::MAX,
            0 <= index <= ids@.len(),
            result@.len() == index,
            forall|i: int|
                0 <= i < index ==> #[trigger] result@[i] == spec_withdrawal(ids@[i], (height + 1) as u64),
        decreases ids@.len() - index,
    {
        result.push(withdrawal(ids[index], height + 1));
        index = index + 1;
    }
    result
}

/// A prepare request of the benchmark: the id assigned to the client, its
/// prepare, and the signature that comes with it.
#[derive(Debug, Clone, Copy)]
pub struct PrepareRequest {
    pub assignment: Id,
    pub prepare: Prepare,
    pub signature: Signature,
}

/// The prepare that the benchmark signs once for a whole batch: the entry of
/// the first account at `height`, committed to `commitment`.
pub fn shared_prepare(first: Id, height: u64, commitment: Digest) -> (result: Prepare)
    ensures
        result.entry == (Entry { id: first, height }),
        result.commitment == commitment,
{
    Prepare::new(Entry { id: first, height }, commitment)
}

/// The prepare requests of a batch at `height`: for the account of each of
/// `ids`, in order, the prepare of its withdrawal at `height + 1`
/// (`commitments` holds the digest of each withdrawal) with the one signature
/// `signature` shared by the whole batch. A batch holds at least one account.
pub fn prepare_requests(height: u64, ids: &Vec<Id>, commitments: &Vec<Digest>, signature: Signature) -> (result:
    Vec<PrepareRequest>)
    requires
        ids@.len() > 0,
        commitments@.len() == ids@.len(),
        height < u64::MAX,
    ensures
        result@.len() == ids@.len(),
        forall|i: int|
            0 <= i < ids@.len() ==> {
                &&& (#[trigger] result@[i]).assignment == ids@[i]
                &&& result@[i].prepare.entry == spec_withdrawal(ids@[i], (height + 1) as u64).spec_entry()
                &&& result@[i].prepare.commitment == commitments@[i]
                &&& result@[i].signature == signature
            },
{
    let payloads = withdrawals(ids, height);
    let mut result: Vec<PrepareRequest> = Vec::new();
    let mut index: usize = 0;
    while index < ids.len()
        invariant
            height < u64::MAX,
            payloads@.len() == ids@.len(),
            commitments@.len() == ids@.len(),
            forall|i: int|
                0 <= i < ids@.len() ==> #[trigger] payloads@[i] == spec_withdrawal(ids@[i], (height + 1) as u64),
            0 <= index <= ids@.len(),
            result@.len() == index,
            forall|i: int|
                0 <= i < index ==> {
                    &&& (#[trigger] result@[i]).assignment == ids@[i]
                    &&& result@[i].prepare.entry == spec_withdrawal(ids@[i], (height + 1) as u64).spec_entry()
                    &&& result@[i].prepare.commitment == commitments@[i]
                    &&& result@[i].signature == signature
                },
        decreases ids@.len() - index,
    {
        let prepare = payloads[index].prepare(commitments[index]);
        result.push(PrepareRequest { assignment: ids[index], prepare, signature });
        index = index + 1;
    }
    result
}

/// Whether `byte` is an ASCII decimal digit.
pub open spec fn is_digit(byte: u8) -> bool {
    48 <= byte <= 57
}

/// The number that a string of ASCII decimal digits writes.
pub open spec fn decimal(digits: Seq<u8>) -> nat
    decreases digits.len(),
{
    if digits.len() == 0 {
        0
    } else {
        decimal(digits.drop_last()) * 10 + (digits.last() - 48) as nat
    }
}

/// `text` cut at each `.`: the pieces between dots, in order (one more piece
/// than there are dots).
pub open spec fn split_dots(text: Seq<u8>) -> Seq<Seq<u8>>
    decreases text.len(),
{
    if text.len() == 0 {
        seq![Seq::<u8>::empty()]
    } else {
        let rest = split_dots(text.drop_first());
        if text[0] == 46 {
            seq![Seq::<u8>::empty()] + rest
        } else {
            rest.update(0, seq![text[0]] + rest[0])
        }
    }
}

/// A decimal octet: one to three digits, without a leading zero unless it is
/// the only digit, writing a number up to 255.
pub open spec fn valid_octet(piece: Seq<u8>) -> bool {
    &&& 1 <= piece.len() <= 3
    &&& forall|i: int| 0 <= i < piece.len() ==> is_digit(#[trigger] piece[i])
    &&& piece.len() > 1 ==> piece[0] != 48
    &&& decimal(piece) <= 255
}

/// The IPv4 address that `text` writes in dotted decimal notation, as a
/// number whose bytes, most significant first, are the four octets; `None`
/// when `text` is not four valid octets separated by dots.
pub open spec fn ipv4_of(text: Seq<u8>) -> Option<u32> {
    let pieces = split_dots(text);
    if pieces.len() == 4 && valid_octet(pieces[0]) && valid_octet(pieces[1]) && valid_octet(pieces[2])
        && valid_octet(pieces[3]) {
        Some(
            (decimal(pieces[0]) * 16777216 + decimal(pieces[1]) * 65536 + decimal(pieces[2]) * 256
                + decimal(pieces[3])) as u32,
        )
    } else {
        None
    }
}

proof fn lemma_split_dots_nonempty(text: Seq<u8>)
    ensures
        split_dots(text).len() >= 1,
    decreases text.len(),
{
    if text.len() > 0 {
        lemma_split_dots_nonempty(text.drop_first());
    }
}

/// The pieces of `text` between dots.
fn pieces_of(text: &[u8]) -> (result: Vec<Vec<u8>>)
    ensures
        result@.map_values(|piece: Vec<u8>| piece@) == split_dots(text@),
{
    let mut pieces: Vec<Vec<u8>> = Vec::new();
    pieces.push(Vec::new());
    let mut index: usize = text.len();
    proof {
        assert(text@.skip(index as int) =~= Seq::<u8>::empty());
        assert(pieces@.map_values(|piece: Vec<u8>| piece@) =~= seq![Seq::<u8>::empty()]);
    }
    while index > 0
        invariant
            index <= text@.len(),
            pieces@.map_values(|piece: Vec<u8>| piece@) == split_dots(text@.skip(index as int)),
        decreases index,
    {
        let byte = text[index - 1];
        let ghost rest = split_dots(text@.skip(index as int));
        proof {
            lemma_split_dots_nonempty(text@.skip(index as int));
            assert(text@.skip(index - 1).drop_first() =~= text@.skip(index as int));
            assert(text@.skip(index - 1)[0] == byte);
        }
        if byte == 46 {
            pieces.insert(0, Vec::new());
            proof {
                assert(pieces@.map_values(|piece: Vec<u8>| piece@) =~= seq![Seq::<u8>::empty()] + rest);
            }
        } else {
            let ghost before = pieces@;
            let mut first = pieces.remove(0);
            proof {
                assert(first@ == rest[0]);
            }
            first.insert(0, byte);
            proof {
                assert(first@ =~= seq![byte] + rest[0]);
            }
            pieces.insert(0, first);
            proof {
                assert(pieces@ =~= before.update(0, first));
                assert forall|i: int| 1 <= i < pieces@.len() implies #[trigger] pieces@[i]@ == rest[i] by {
                    assert(pieces@[i] == before[i]);
                    assert(before.map_values(|piece: Vec<u8>| piece@)[i] == before[i]@);
                }
                assert(pieces@.map_values(|piece: Vec<u8>| piece@) =~= rest.update(
                    0,
                    seq![byte] + rest[0],
                ));
            }
        }
        index = index - 1;
    }
    proof {
        assert(text@.skip(0) =~= text@);
    }
    pieces
}

/// The octet that `piece` writes, if it is a valid one.
fn octet(piece: &Vec<u8>) -> (result: Option<u32>)
    ensures
        result == if valid_octet(piece@) {
            Some(decimal(piece@) as u32)
        } else {
            None::<u32>
        },
{
    let length = piece.len();
    if length == 0 || length > 3 {
        return None;
    }
    if length > 1 && piece[0] == 48 {
        return None;
    }
    let mut value: u32 = 0;
    let mut index: usize = 0;
    while index < length
        invariant
            length == piece@.len(),
            1 <= length <= 3,
            length > 1 ==> piece@[0] != 48,
            0 <= index <= length,
            value == decimal(piece@.take(index as int)),
            index == 0 ==> value == 0,
            index == 1 ==> value < 10,
            index == 2 ==> value < 100,
            index == 3 ==> value < 1000,
            forall|i: int| 0 <= i < index ==> is_digit(#[trigger] piece@[i]),
        decreases length - index,
    {
        let byte = piece[index];
        if byte < 48 || byte > 57 {
            assert(!is_digit(piece@[index as int]));
            return None;
        }
        proof {
            assert(piece@.take(index + 1).drop_last() =~= piece@.take(index as int));
        }
        value = value * 10 + (byte - 48) as u32;
        index = index + 1;
    }
    proof {
        assert(piece@.take(length as int) =~= piece@);
    }
    if value > 255 {
        None
    } else {
        Some(value)
    }
}

/// The IPv4 address that `text` writes in dotted decimal notation, such as
/// `10.0.0.1` (see `ipv4_of`), or `None` when it writes none.
pub fn parse_ipv4(text: &[u8]) -> (result: Option<u32>)
    ensures
        result == ipv4_of(text@),
{
    let pieces = pieces_of(text);
    let ghost split = split_dots(text@);
    if pieces.len() != 4 {
        return None;
    }
    proof {
        assert(pieces@[0]@ == split[0]);
        assert(pieces@[1]@ == split[1]);
        assert(pieces@[2]@ == split[2]);
        assert(pieces@[3]@ == split[3]);
    }
    let first = match octet(&pieces[0]) {
        Some(value) => value,
        None => return None,
    };
    let second = match octet(&pieces[1]) {
        Some(value) => value,
        None => return None,
    };
    let third = match octet(&pieces[2]) {
        Some(value) => value,
        None => return None,
    };
    let fourth = match octet(&pieces[3]) {
        Some(value) => value,
        None => return None,
    };
    Some(first * 16777216 + second * 65536 + third * 256 + fourth)
}

/// The position of the broker address to connect to: the first whose IP is
/// `preferred`, if there is one, otherwise the first. `ips` holds the IPv4
/// address of each broker as an integer, `None` for other addresses; it must
/// not be empty.
pub fn choose_address(ips: &Vec<Option<u32>>, preferred: Option<u32>) -> (result: usize)
    requires
        ips@.len() > 0,
    ensures
        result < ips@.len(),
        match preferred {
            Some(ip) => if exists|i: int| 0 <= i < ips@.len() && ips@[i] == Some(ip) {
                &&& ips@[result as int] == Some(ip)
                &&& forall|i: int| 0 <= i < result ==> ips@[i] != Some(ip)
            } else {
                result == 0
            },
            None => result == 0,
        },
{
    if let Some(ip) = preferred {
        let mut index: usize = 0;
        while index < ips.len()
            invariant
                preferred == Some(ip),
                0 <= index <= ips@.len(),
                forall|i: int| 0 <= i < index ==> ips@[i] != Some(ip),
            decreases ips@.len() - index,
        {
            if let Some(candidate) = ips[index] {
                if candidate == ip {
                    assert(ips@[index as int] == Some(ip));
                    return index;
                }
            }
            index = index + 1;
        }
    }
    0
}

/// The split of a batch of `length` requests among `streams` parallel streams:
/// chunks of `length / streams` requests, as many whole chunks as fit.
pub open spec fn chunk_length(length: nat, streams: nat) -> nat {
    length / streams
}

/// The mini-batches sent on `streams` parallel streams: `batch` cut, in order,
/// into whole chunks of `batch.len() / streams` requests each; a shorter
/// remainder at the end is not sent. There must be at least as many requests
/// as streams.
pub fn mini_batches<T: Copy>(batch: &Vec<T>, streams: usize) -> (result: Vec<Vec<T>>)
    requires
        streams > 0,
        batch@.len() >= streams,
    ensures
        ({
            let size = chunk_length(batch@.len(), streams as nat);
            &&& size > 0
            &&& result@.len() == batch@.len() / size
            &&& forall|i: int|
                0 <= i < result@.len() ==> (#[trigger] result@[i])@ == batch@.subrange(
                    i * size,
                    i * size + size,
                )
        }),
{
    let length = batch.len();
    let size = length / streams;
    assert(size >= 1) by (nonlinear_arith)
        requires
            size == length / streams,
            length >= streams,
            streams > 0,
    ;
    let mut result: Vec<Vec<T>> = Vec::new();
    let mut start: usize = 0;
    assert(result@.len() * size == 0) by (nonlinear_arith)
        requires
            result@.len() == 0,
    ;
    while size <= length - start
        invariant
            length == batch@.len(),
            size == chunk_length(length as nat, streams as nat),
            size >= 1,
            start <= length,
            start == result@.len() * size,
            forall|i: int|
                0 <= i < result@.len() ==> (#[trigger] result@[i])@ == batch@.subrange(
                    i * size,
                    i * size + size,
                ),
        decreases length - start,
    {
        let mut chunk: Vec<T> = Vec::new();
        let mut index: usize = start;
        while index < start + size
            invariant
                length == batch@.len(),
                start + size <= length,
                start <= index <= start + size,
                chunk@ == batch@.subrange(start as int, index as int),
            decreases start + size - index,
        {
            chunk.push(batch[index]);
            index = index + 1;
        }
        let ghost count = result@.len();
        result.push(chunk);
        assert((count + 1) * size == count * size + size) by (nonlinear_arith);
        start = start + size;
    }
    proof {
        vstd::arithmetic::div_mod::lemma_fundamental_div_mod_converse(
            length as int,
            size as int,
            result@.len() as int,
            length - start,
        );
    }
    result
}

/// The pause, in milliseconds, between two batches of `batch_size` requests
/// sent at `rate` requests per second.
pub fn batch_interval(batch_size: usize, rate: usize) -> (result: usize)
    requires
        rate > 0,
        1000 * batch_size <= usize::MAX,
    ensures
        result == (1000 * batch_size) / (rate as int),
{
    (1000 * batch_size) / rate
}

} // verus!
