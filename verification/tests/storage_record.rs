use raft_consensus::default_storage::ELECTION_RECORD_SIZE;
use raft_consensus::Election;
use raft_consensus::PersistentStorageError;
use raft_consensus::ServerId;
use raft_consensus::TermIndex;

fn record(term: u64, vote: Option<(u64, u64)>) -> Election {
    Election {
        current_term: TermIndex(term),
        voted_for: vote.map(|(term, server)| (TermIndex(term), ServerId(server))),
    }
}

#[test]
fn a_new_record_is_term_zero_without_a_vote() {
    assert_eq!(Election::new(), record(0, None));
    assert_eq!(Election::new().to_bytes(), vec![0, 0]);
}

#[test]
fn small_numbers_take_one_byte() {
    assert_eq!(record(7, None).to_bytes(), vec![7, 0]);
    assert_eq!(record(250, Some((250, 3))).to_bytes(), vec![250, 1, 250, 3]);
}

#[test]
fn larger_numbers_are_little_endian_behind_a_width_byte() {
    assert_eq!(record(251, None).to_bytes(), vec![251, 251, 0, 0]);
    assert_eq!(record(0x1234, None).to_bytes(), vec![251, 0x34, 0x12, 0]);
    assert_eq!(record(0xffff, None).to_bytes(), vec![251, 0xff, 0xff, 0]);
    assert_eq!(record(0x1_0000, None).to_bytes(), vec![252, 0, 0, 1, 0, 0]);
    assert_eq!(record(0xffff_ffff, None).to_bytes(), vec![252, 0xff, 0xff, 0xff, 0xff, 0]);
    assert_eq!(
        record(0x1_0000_0000, Some((5, 0x0102_0304_0506_0708))).to_bytes(),
        vec![253, 0, 0, 0, 0, 1, 0, 0, 0, 1, 5, 253, 8, 7, 6, 5, 4, 3, 2, 1]
    );
}

#[test]
fn the_largest_record_fits_the_file() {
    let largest = record(u64::MAX, Some((u64::MAX, u64::MAX)));
    let bytes = largest.to_bytes();
    assert_eq!(bytes.len(), 28);
    assert!(bytes.len() as u64 <= ELECTION_RECORD_SIZE);
    assert_eq!(Election::from_bytes(&bytes), Ok(largest));
}

#[test]
fn a_record_reads_back_whatever_follows_it_in_the_file() {
    let cases = [
        record(0, None),
        record(1, Some((1, 4))),
        record(250, Some((249, 251))),
        record(65_536, Some((65_535, 0))),
        record(u64::MAX, None),
        record(9, Some((3, u64::MAX))),
    ];
    for case in cases {
        let bytes = case.to_bytes();
        assert_eq!(Election::from_bytes(&bytes), Ok(case));
        let mut image = bytes.clone();
        image.resize(ELECTION_RECORD_SIZE as usize, 0);
        assert_eq!(Election::from_bytes(&image), Ok(case));
        let mut stale = bytes.clone();
        stale.resize(ELECTION_RECORD_SIZE as usize, 0xab);
        assert_eq!(Election::from_bytes(&stale), Ok(case));
    }
}

#[test]
fn a_fresh_file_of_zeros_holds_the_first_record() {
    assert_eq!(Election::from_bytes(&[0u8; 32]), Ok(Election::new()));
}

#[test]
fn a_number_written_wider_than_needed_is_read() {
    assert_eq!(Election::from_bytes(&[251, 5, 0, 0]), Ok(record(5, None)));
    assert_eq!(Election::from_bytes(&[252, 5, 0, 0, 0, 1, 253, 1, 0, 0, 0, 0, 0, 0, 0, 2]), Ok(record(5, Some((1, 2)))));
}

#[test]
fn bytes_that_hold_no_record_are_a_serde_error() {
    let broken: [&[u8]; 9] = [
        &[],
        &[7],
        &[7, 2],
        &[255, 0],
        &[254, 0, 0, 0, 0, 0, 0, 0, 0, 0, 0, 0, 0, 0, 0, 0, 0, 0],
        &[251, 1],
        &[7, 1, 3],
        &[7, 1, 3, 253, 1, 2, 3],
        &[252, 1, 2, 3],
    ];
    for bytes in broken {
        assert_eq!(Election::from_bytes(bytes), Err(PersistentStorageError::SerdeError));
    }
}

#[test]
fn a_vote_counts_only_in_the_term_it_was_cast_in() {
    let mut election = Election::new();
    election.update_term(TermIndex(3));
    election.record_vote(ServerId(7));
    assert_eq!(election, record(3, Some((3, 7))));
    assert_eq!(election.vote_for_current_term(), Some(ServerId(7)));
    election.update_term(TermIndex(4));
    assert_eq!(election, record(4, Some((3, 7))));
    assert_eq!(election.vote_for_current_term(), None);
    assert_eq!(election.current_term(), TermIndex(4));
}
