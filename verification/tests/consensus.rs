use ants::worker::consensus::{consensus, tally, ConsensusRound};
use ants::AntsError;

fn pending<T: std::hash::Hash>(items: Vec<T>, min_ballot: usize) -> Result<T, usize> {
    consensus(items, min_ballot).map_err(|err| match err {
        AntsError::ConsensusPending(agreed) => agreed,
        _ => panic!("Unexpected error: {:?}", err),
    })
}

#[test]
fn empty() {
    assert_eq!(pending(Vec::<()>::new(), 1), Err::<(), _>(0));
}

#[test]
fn single() {
    assert_eq!(pending(vec![()], 1), Ok(()));
}

#[test]
fn single_insufficient_ballot() {
    assert_eq!(pending(vec![()], 2), Err(1));
}

#[test]
fn two_agreed() {
    assert_eq!(pending(vec![1, 1], 2), Ok(1));
}

#[test]
fn two_disagreed() {
    assert_eq!(pending(vec![1, 2], 2), Err(1));
}

#[test]
fn three_agreed() {
    assert_eq!(pending(vec![1, 1, 2], 2), Ok(1));
}

#[test]
fn three_disagreed() {
    assert_eq!(pending(vec![1, 2, 3], 2), Err(1));
}

#[test]
fn seven_agreed() {
    assert_eq!(pending(vec![2, 2, 0, 0, 0, 1, 1], 3), Ok(0));
}

#[test]
fn seven_disagreed() {
    assert_eq!(pending(vec![2, 2, 0, 0, 0, 1, 1], 4), Err(3));
}

#[test]
fn tally_finds_the_first_ballot_to_reach_the_minimum() {
    assert_eq!(tally(&vec![5, 6, 6, 5, 5], 2), Ok(2));
    assert_eq!(tally(&vec![5, 6, 6, 5, 5], 3), Ok(4));
    assert_eq!(tally(&vec![5, 6, 6, 5, 5], 4), Err(3));
    assert_eq!(tally(&vec![], 1), Err(0));
    assert_eq!(tally(&vec![9], 0), Ok(0));
}

#[test]
fn consensus_with_strings() {
    let items = vec!["a".to_owned(), "b".to_owned(), "b".to_owned()];
    assert_eq!(consensus(items, 2).unwrap(), "b");
}

#[test]
fn round_reaches_consensus() {
    let mut round = ConsensusRound::new(0, 3);
    // At least two results must agree.
    let batch = round.next_batch();
    assert_eq!(batch, 2);
    round.record(Some(("worker://a:1".to_owned(), 7)));
    round.record(None);
    let batch = round.next_batch();
    assert_eq!(batch, 1);
    round.record(Some(("worker://b:1".to_owned(), 7)));
    assert_eq!(round.next_batch(), 0);
    assert_eq!(round.verdict().unwrap(), 1);
}

#[test]
fn round_runs_out_of_retries() {
    let mut round = ConsensusRound::new(3, 4);
    assert_eq!(round.next_batch(), 3);
    round.record_result("worker://a:1".to_owned(), &1);
    round.record_result("worker://b:1".to_owned(), &2);
    round.record_result("worker://c:1".to_owned(), &3);
    // One result is left, and two more votes would be needed.
    assert_eq!(round.next_batch(), 1);
    round.record_result("worker://d:1".to_owned(), &4);
    assert_eq!(round.next_batch(), 0);
    match round.verdict() {
        Err(AntsError::ConsensusNotReached(minimum, results, workers)) => {
            assert_eq!(minimum, 3);
            assert_eq!(results, 4);
            assert_eq!(workers, vec!["worker://a:1", "worker://b:1", "worker://c:1", "worker://d:1"]);
        },
        other => panic!("unexpected: {:?}", other),
    }
}

#[test]
fn round_counts_results_by_their_hash() {
    let mut round = ConsensusRound::new(2, 5);
    assert_eq!(round.next_batch(), 2);
    round.record_result("w1".to_owned(), &"same".to_owned());
    round.record_result("w2".to_owned(), &"same".to_owned());
    assert_eq!(round.next_batch(), 0);
    assert_eq!(round.verdict().unwrap(), 1);
}

#[test]
fn round_of_failed_attempts_ends() {
    // At least two results must agree, and at least two attempts may be made.
    let mut round = ConsensusRound::new(0, 0);
    assert_eq!(round.next_batch(), 2);
    round.record(None);
    round.record(None);
    assert_eq!(round.next_batch(), 0);
    match round.verdict() {
        Err(AntsError::ConsensusNotReached(minimum, results, workers)) => {
            assert_eq!(minimum, 2);
            assert_eq!(results, 0);
            assert!(workers.is_empty());
        },
        other => panic!("unexpected: {:?}", other),
    }
}
