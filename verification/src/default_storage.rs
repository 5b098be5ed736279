//! The election record as bytes.
//!
//! The record is kept in a file of fixed size. Its bytes are, in this order:
//! the current term; one byte that says whether a vote follows, 0 or 1; and,
//! after a 1, the term of the vote and the server voted for. Each number is
//! written in as few bytes as it needs: a number up to 250 is its own single
//! byte, a larger one comes little-endian after a byte that tells its width
//! (251 for two bytes, 252 for four, 253 for eight). What follows the record
//! in the file is not read.
//!
//! `bincode` writes and reads the bytes; what is stated here of the format is
//! what the round trip of a record rests on.

use vstd::prelude::*;
use vstd::bytes::spec_u16_from_le_bytes;
use vstd::bytes::spec_u16_to_le_bytes;
use vstd::bytes::spec_u32_from_le_bytes;
use vstd::bytes::spec_u32_to_le_bytes;
use vstd::bytes::spec_u64_from_le_bytes;
use vstd::bytes::spec_u64_to_le_bytes;
use vstd::bytes::lemma_auto_spec_u16_to_from_le_bytes;
use vstd::bytes::lemma_auto_spec_u32_to_from_le_bytes;
use vstd::bytes::lemma_auto_spec_u64_to_from_le_bytes;
use bincode::Options;
use crate::common::Election;
use crate::common::PersistentStorageError;
use crate::common::ServerId;
use crate::common::TermIndex;

verus! {

/// The size of the record file in bytes. No record needs more.
pub const ELECTION_RECORD_SIZE: u64 = 32;

/// `bincode::ErrorKind`, the reason `bincode` gives when it fails. It is
/// never looked into.
#[verifier::external_type_specification]
#[verifier::external_body]
pub struct ExBincodeErrorKind(bincode::ErrorKind);

/// The bytes of one number.
pub open spec fn varint(value: u64) -> Seq<u8> {
    if value <= 250 {
        seq![value as u8]
    } else if value <= 0xffff {
        seq![251u8] + spec_u16_to_le_bytes(value as u16)
    } else if value <= 0xffff_ffff {
        seq![252u8] + spec_u32_to_le_bytes(value as u32)
    } else {
        seq![253u8] + spec_u64_to_le_bytes(value)
    }
}

/// The number that `bytes` begins with, and how many bytes it takes. A
/// number may be written wider than it needs to be. There is none where the
/// bytes run out or the first byte is above 253.
pub open spec fn read_varint(bytes: Seq<u8>) -> Option<(u64, nat)> {
    if bytes.len() == 0 {
        None
    } else if bytes[0] <= 250 {
        Some((bytes[0] as u64, 1))
    } else if bytes[0] == 251 {
        if bytes.len() >= 3 {
            Some((spec_u16_from_le_bytes(bytes.subrange(1, 3)) as u64, 3))
        } else {
            None
        }
    } else if bytes[0] == 252 {
        if bytes.len() >= 5 {
            Some((spec_u32_from_le_bytes(bytes.subrange(1, 5)) as u64, 5))
        } else {
            None
        }
    } else if bytes[0] == 253 {
        if bytes.len() >= 9 {
            Some((spec_u64_from_le_bytes(bytes.subrange(1, 9)), 9))
        } else {
            None
        }
    } else {
        None
    }
}

/// The record that `bytes` begins with, and how many bytes it takes.
pub open spec fn read_record(bytes: Seq<u8>) -> Option<(Election, nat)> {
    match read_varint(bytes) {
        None => None,
        Some((term, taken)) => {
            let rest = bytes.skip(taken as int);
            if rest.len() == 0 {
                None
            } else if rest[0] == 0 {
                Some((Election { current_term: TermIndex(term), voted_for: None }, taken + 1))
            } else if rest[0] == 1 {
                match read_varint(rest.skip(1)) {
                    None => None,
                    Some((vote_term, more)) => match read_varint(rest.skip(1 + more as int)) {
                        None => None,
                        Some((server, last)) => Some(
                            (
                                Election {
                                    current_term: TermIndex(term),
                                    voted_for: Some((TermIndex(vote_term), ServerId(server))),
                                },
                                taken + 1 + more + last,
                            ),
                        ),
                    },
                }
            } else {
                None
            }
        },
    }
}

impl Election {
    /// The bytes of the record.
    pub open spec fn encoding(&self) -> Seq<u8> {
        varint(self.current_term.0) + match self.voted_for {
            None => seq![0u8],
            Some((term, server)) => seq![1u8] + varint(term.0) + varint(server.0),
        }
    }
}

/// Writes a record with `bincode::Options::serialize`, under the options
/// little-endian, variable-width numbers, and at most `limit` bytes. By the
/// crate's source the call gives the bytes of [`Election::encoding`], and
/// fails exactly where they are more than `limit`.
#[verifier::external_body]
fn bincode_serialize(record: &Election, limit: u64) -> (written: Result<
    Vec<u8>,
    Box<bincode::ErrorKind>,
>)
    ensures
        match written {
            Ok(bytes) => bytes@ == record.encoding() && record.encoding().len() <= limit,
            Err(_) => record.encoding().len() > limit,
        },
{
    let vote = record.voted_for.map(|(term, server)| (term.0, server.0));
    bincode::DefaultOptions::new()
        .with_limit(limit)
        .reject_trailing_bytes()
        .with_varint_encoding()
        .with_little_endian()
        .serialize(&(record.current_term.0, vote))
}

/// Reads a record with `bincode::Options::deserialize_from`, under the same
/// options. By the crate's source the call gives the record of
/// [`read_record`] where there is one within `limit` bytes, and fails
/// otherwise; bytes after the record are left unread.
#[verifier::external_body]
fn bincode_deserialize(bytes: &[u8], limit: u64) -> (read: Result<Election, Box<bincode::ErrorKind>>)
    ensures
        match read_record(bytes@) {
            Some((record, taken)) => if taken <= limit {
                read == Ok::<Election, Box<bincode::ErrorKind>>(record)
            } else {
                read is Err
            },
            None => read is Err,
        },
{
    let plain: (u64, Option<(u64, u64)>) = bincode::DefaultOptions::new()
        .with_limit(limit)
        .reject_trailing_bytes()
        .with_varint_encoding()
        .with_little_endian()
        .deserialize_from(bytes)?;
    Ok(
        Election {
            current_term: TermIndex(plain.0),
            voted_for: plain.1.map(|(term, server)| (TermIndex(term), ServerId(server))),
        },
    )
}

/// The bytes of a number are at most nine, and reading them back gives the
/// number, whatever follows them.
pub proof fn varint_round_trip(value: u64, rest: Seq<u8>)
    ensures
        1 <= varint(value).len() <= 9,
        read_varint(varint(value) + rest) == Some((value, varint(value).len())),
{
    lemma_auto_spec_u16_to_from_le_bytes();
    lemma_auto_spec_u32_to_from_le_bytes();
    lemma_auto_spec_u64_to_from_le_bytes();
    let bytes = varint(value) + rest;
    if value <= 250 {
    } else if value <= 0xffff {
        assert(bytes.subrange(1, 3) =~= spec_u16_to_le_bytes(value as u16));
    } else if value <= 0xffff_ffff {
        assert(bytes.subrange(1, 5) =~= spec_u32_to_le_bytes(value as u32));
    } else {
        assert(bytes.subrange(1, 9) =~= spec_u64_to_le_bytes(value));
    }
}

/// Writing a record and reading it back gives the record, whatever follows
/// its bytes in the file; and the bytes fit the file.
pub proof fn record_round_trip(record: Election, rest: Seq<u8>)
    ensures
        record.encoding().len() <= 28,
        read_record(record.encoding() + rest) == Some((record, record.encoding().len())),
{
    let bytes = record.encoding() + rest;
    let term = varint(record.current_term.0);
    match record.voted_for {
        None => {
            varint_round_trip(record.current_term.0, seq![0u8] + rest);
            assert(bytes =~= term + (seq![0u8] + rest));
            assert(bytes.skip(term.len() as int) =~= seq![0u8] + rest);
        },
        Some((vote_term, server)) => {
            let vote = varint(vote_term.0);
            let whom = varint(server.0);
            varint_round_trip(record.current_term.0, seq![1u8] + vote + whom + rest);
            varint_round_trip(vote_term.0, whom + rest);
            varint_round_trip(server.0, rest);
            assert(bytes =~= term + (seq![1u8] + vote + whom + rest));
            let after_term = bytes.skip(term.len() as int);
            assert(after_term =~= seq![1u8] + vote + whom + rest);
            assert(after_term.skip(1) =~= vote + (whom + rest));
            assert(after_term.skip(1 + vote.len() as int) =~= whom + rest);
        },
    }
}

impl Election {
    /// The bytes to write to the record file.
    pub fn to_bytes(&self) -> (bytes: Vec<u8>)
        ensures
            bytes@ == self.encoding(),
            bytes@.len() <= ELECTION_RECORD_SIZE,
    {
        proof {
            record_round_trip(*self, Seq::empty());
        }
        match bincode_serialize(self, ELECTION_RECORD_SIZE) {
            Ok(bytes) => bytes,
            Err(_) => Vec::new(),
        }
    }

    /// The record that the bytes of a record file begin with. Bytes that
    /// begin with no record are a `SerdeError`.
    pub fn from_bytes(bytes: &[u8]) -> (read: Result<Election, PersistentStorageError>)
        ensures
            read == match read_record(bytes@) {
                Some((record, _)) => Ok::<Election, PersistentStorageError>(record),
                None => Err(PersistentStorageError::SerdeError),
            },
    {
        proof {
            record_takes_at_most_28_bytes(bytes@);
        }
        match bincode_deserialize(bytes, ELECTION_RECORD_SIZE) {
            Ok(record) => Ok(record),
            Err(_) => Err(PersistentStorageError::SerdeError),
        }
    }
}

/// A record takes at most 28 bytes, however its numbers are written.
pub proof fn record_takes_at_most_28_bytes(bytes: Seq<u8>)
    ensures
        read_record(bytes) matches Some((_, taken)) ==> taken <= 28,
{
}

/// What was written to the record file is what a restart reads from it:
/// reading the bytes of a record gives the record, whatever older bytes are
/// left behind them in the file.
pub proof fn written_record_is_read_back(record: Election, rest: Seq<u8>)
    ensures
        read_record(record.encoding() + rest) matches Some((read, _)) && read == record,
{
    record_round_trip(record, rest);
}

} // verus!
