use tari_dan_core::digital_assets_error::DigitalAssetError;
use tari_dan_core::models::Instruction;
use tari_dan_core::services::{ConcreteMempoolService, MempoolService};

fn instruction(tag: u8) -> Instruction {
    Instruction::new(vec![tag, tag], vec![0xC0, tag])
}

fn hash(tag: u8) -> Vec<u8> {
    vec![tag, tag]
}

fn filled(count: u8) -> ConcreteMempoolService {
    let mut mempool = ConcreteMempoolService::default();
    let mut tag: u8 = 1;
    while tag <= count {
        assert_eq!(mempool.submit_instruction(instruction(tag)), Ok(()));
        tag += 1;
    }
    mempool
}

fn markers(mempool: &ConcreteMempoolService) -> Vec<Option<Vec<u8>>> {
    mempool.stored().iter().map(|entry| entry.1.clone()).collect()
}

fn hashes(mempool: &ConcreteMempoolService) -> Vec<Vec<u8>> {
    mempool.stored().iter().map(|entry| entry.0.hash().to_vec()).collect()
}

#[test]
fn default_mempool_is_empty() {
    let mempool = ConcreteMempoolService::default();
    assert!(mempool.stored().is_empty());
    assert_eq!(mempool.size(), 0);
    assert_eq!(mempool.read_block(10), Ok(vec![]));
}

#[test]
fn submit_appends_an_unreserved_entry() {
    let mut mempool = filled(2);
    assert_eq!(mempool.submit_instruction(instruction(9)), Ok(()));
    assert_eq!(hashes(&mempool), vec![hash(1), hash(2), hash(9)]);
    assert_eq!(markers(&mempool), vec![None, None, None]);
    assert_eq!(mempool.stored()[2].0, instruction(9));
}

#[test]
fn submit_keeps_an_instruction_that_is_already_there() {
    let mut mempool = filled(1);
    assert_eq!(mempool.submit_instruction(instruction(1)), Ok(()));
    assert_eq!(hashes(&mempool), vec![hash(1), hash(1)]);
    assert_eq!(mempool.size(), 2);
}

#[test]
fn read_block_hands_out_the_oldest_up_to_the_limit() {
    let mempool = filled(5);
    assert_eq!(mempool.read_block(3), Ok(vec![instruction(1), instruction(2), instruction(3)]));
    assert_eq!(mempool.read_block(1), Ok(vec![instruction(1)]));
}

#[test]
fn read_block_with_limit_zero_is_empty() {
    let mempool = filled(3);
    assert_eq!(mempool.read_block(0), Ok(vec![]));
}

#[test]
fn read_block_with_a_large_limit_hands_out_all() {
    let mempool = filled(3);
    assert_eq!(mempool.read_block(3), Ok(vec![instruction(1), instruction(2), instruction(3)]));
    assert_eq!(mempool.read_block(usize::MAX), Ok(vec![instruction(1), instruction(2), instruction(3)]));
}

#[test]
fn read_block_reserves_nothing() {
    let mempool = filled(4);
    let first = mempool.read_block(2);
    let second = mempool.read_block(2);
    assert_eq!(first, second);
    assert_eq!(markers(&mempool), vec![None, None, None, None]);
    assert_eq!(mempool.size(), 4);
}

#[test]
fn read_block_skips_reserved_entries_and_still_fills_the_limit() {
    let mut mempool = filled(5);
    assert_eq!(mempool.reserve_instruction_in_block(&hash(1), vec![7]), Ok(()));
    assert_eq!(mempool.reserve_instruction_in_block(&hash(3), vec![7]), Ok(()));
    assert_eq!(mempool.read_block(2), Ok(vec![instruction(2), instruction(4)]));
    assert_eq!(mempool.read_block(3), Ok(vec![instruction(2), instruction(4), instruction(5)]));
    assert_eq!(mempool.read_block(9), Ok(vec![instruction(2), instruction(4), instruction(5)]));
}

#[test]
fn reserve_marks_the_entry_with_the_hash() {
    let mut mempool = filled(3);
    assert_eq!(mempool.reserve_instruction_in_block(&hash(2), vec![0xAA, 0xBB]), Ok(()));
    assert_eq!(markers(&mempool), vec![None, Some(vec![0xAA, 0xBB]), None]);
    assert_eq!(hashes(&mempool), vec![hash(1), hash(2), hash(3)]);
}

#[test]
fn reserve_of_an_unknown_hash_changes_nothing() {
    let mut mempool = filled(3);
    assert_eq!(mempool.reserve_instruction_in_block(&[0xFF], vec![1]), Ok(()));
    assert_eq!(mempool.reserve_instruction_in_block(&[], vec![1]), Ok(()));
    assert_eq!(markers(&mempool), vec![None, None, None]);
    assert_eq!(mempool.size(), 3);
}

#[test]
fn reserve_marks_only_the_oldest_of_two_equal_hashes() {
    let mut mempool = filled(2);
    assert_eq!(mempool.submit_instruction(instruction(1)), Ok(()));
    assert_eq!(mempool.reserve_instruction_in_block(&hash(1), vec![5]), Ok(()));
    assert_eq!(markers(&mempool), vec![Some(vec![5]), None, None]);
    assert_eq!(mempool.read_block(9), Ok(vec![instruction(2), instruction(1)]));
}

#[test]
fn reserve_again_under_another_node_overwrites_the_marker() {
    let mut mempool = filled(2);
    assert_eq!(mempool.reserve_instruction_in_block(&hash(1), vec![5]), Ok(()));
    assert_eq!(mempool.reserve_instruction_in_block(&hash(1), vec![6]), Ok(()));
    assert_eq!(markers(&mempool), vec![Some(vec![6]), None]);
    assert_eq!(mempool.release_reservations(&[5]), Ok(()));
    assert_eq!(markers(&mempool), vec![Some(vec![6]), None]);
    assert_eq!(mempool.release_reservations(&[6]), Ok(()));
    assert_eq!(markers(&mempool), vec![None, None]);
}

#[test]
fn reserved_instruction_is_not_read_until_its_node_is_released() {
    let mut mempool = filled(3);
    assert_eq!(mempool.reserve_instruction_in_block(&hash(2), vec![1]), Ok(()));
    assert_eq!(mempool.read_block(9), Ok(vec![instruction(1), instruction(3)]));
    assert_eq!(mempool.submit_instruction(instruction(4)), Ok(()));
    assert_eq!(mempool.reserve_instruction_in_block(&hash(3), vec![2]), Ok(()));
    assert_eq!(mempool.release_reservations(&[2]), Ok(()));
    assert_eq!(mempool.remove_all_in_block(&[3]), Ok(()));
    assert_eq!(mempool.read_block(9), Ok(vec![instruction(1), instruction(3), instruction(4)]));
    assert_eq!(mempool.release_reservations(&[1]), Ok(()));
    assert_eq!(
        mempool.read_block(9),
        Ok(vec![instruction(1), instruction(2), instruction(3), instruction(4)])
    );
}

#[test]
fn removed_instruction_is_never_read_again() {
    let mut mempool = filled(3);
    assert_eq!(mempool.reserve_instruction_in_block(&hash(2), vec![1]), Ok(()));
    assert_eq!(mempool.remove_all_in_block(&[1]), Ok(()));
    assert_eq!(mempool.release_reservations(&[1]), Ok(()));
    assert_eq!(mempool.read_block(9), Ok(vec![instruction(1), instruction(3)]));
    assert_eq!(hashes(&mempool), vec![hash(1), hash(3)]);
}

fn three_reserved_of_five() -> ConcreteMempoolService {
    let mut mempool = filled(5);
    assert_eq!(mempool.reserve_instruction_in_block(&hash(1), vec![0x11]), Ok(()));
    assert_eq!(mempool.reserve_instruction_in_block(&hash(3), vec![0x11]), Ok(()));
    assert_eq!(mempool.reserve_instruction_in_block(&hash(4), vec![0x11]), Ok(()));
    mempool
}

#[test]
fn remove_deletes_what_the_node_reserved_and_keeps_the_size() {
    let mut mempool = three_reserved_of_five();
    assert_eq!(mempool.size(), 2);
    assert_eq!(mempool.remove_all_in_block(&[0x11]), Ok(()));
    assert_eq!(mempool.size(), 2);
    assert_eq!(hashes(&mempool), vec![hash(2), hash(5)]);
    assert_eq!(markers(&mempool), vec![None, None]);
}

#[test]
fn release_restores_what_the_node_reserved() {
    let mut mempool = three_reserved_of_five();
    assert_eq!(mempool.size(), 2);
    assert_eq!(mempool.release_reservations(&[0x11]), Ok(()));
    assert_eq!(mempool.size(), 5);
    assert_eq!(hashes(&mempool), vec![hash(1), hash(2), hash(3), hash(4), hash(5)]);
    assert_eq!(markers(&mempool), vec![None, None, None, None, None]);
}

#[test]
fn remove_and_release_leave_other_nodes_alone() {
    let mut mempool = filled(4);
    assert_eq!(mempool.reserve_instruction_in_block(&hash(1), vec![1]), Ok(()));
    assert_eq!(mempool.reserve_instruction_in_block(&hash(2), vec![2]), Ok(()));
    assert_eq!(mempool.reserve_instruction_in_block(&hash(3), vec![1, 0]), Ok(()));
    assert_eq!(mempool.release_reservations(&[1]), Ok(()));
    assert_eq!(markers(&mempool), vec![None, Some(vec![2]), Some(vec![1, 0]), None]);
    assert_eq!(mempool.remove_all_in_block(&[2]), Ok(()));
    assert_eq!(hashes(&mempool), vec![hash(1), hash(3), hash(4)]);
    assert_eq!(markers(&mempool), vec![None, Some(vec![1, 0]), None]);
}

#[test]
fn remove_and_release_of_an_unknown_node_change_nothing() {
    let mut mempool = three_reserved_of_five();
    let before = markers(&mempool);
    assert_eq!(mempool.remove_all_in_block(&[0x99]), Ok(()));
    assert_eq!(mempool.release_reservations(&[0x99]), Ok(()));
    assert_eq!(mempool.remove_all_in_block(&[]), Ok(()));
    assert_eq!(mempool.release_reservations(&[]), Ok(()));
    assert_eq!(markers(&mempool), before);
    assert_eq!(mempool.stored().len(), 5);
}

#[test]
fn remove_twice_is_remove_once() {
    let mut mempool = three_reserved_of_five();
    assert_eq!(mempool.remove_all_in_block(&[0x11]), Ok(()));
    let once = (hashes(&mempool), markers(&mempool));
    assert_eq!(mempool.remove_all_in_block(&[0x11]), Ok(()));
    assert_eq!((hashes(&mempool), markers(&mempool)), once);
}

#[test]
fn release_twice_is_release_once() {
    let mut mempool = three_reserved_of_five();
    assert_eq!(mempool.release_reservations(&[0x11]), Ok(()));
    let once = (hashes(&mempool), markers(&mempool));
    assert_eq!(mempool.release_reservations(&[0x11]), Ok(()));
    assert_eq!((hashes(&mempool), markers(&mempool)), once);
}

#[test]
fn size_counts_the_entries_without_a_marker() {
    let mut mempool = filled(7);
    assert_eq!(mempool.size(), 7);
    assert_eq!(mempool.reserve_instruction_in_block(&hash(2), vec![1]), Ok(()));
    assert_eq!(mempool.reserve_instruction_in_block(&hash(5), vec![2]), Ok(()));
    assert_eq!(mempool.reserve_instruction_in_block(&hash(7), vec![1]), Ok(()));
    assert_eq!(mempool.size(), 4);
    let unmarked: usize = markers(&mempool).iter().filter(|marker| marker.is_none()).count();
    assert_eq!(mempool.size(), unmarked);
}

#[test]
fn size_is_unchanged_by_reserving_a_reserved_entry() {
    let mut mempool = filled(3);
    assert_eq!(mempool.reserve_instruction_in_block(&hash(2), vec![1]), Ok(()));
    assert_eq!(mempool.size(), 2);
    assert_eq!(mempool.reserve_instruction_in_block(&hash(2), vec![1]), Ok(()));
    assert_eq!(mempool.reserve_instruction_in_block(&hash(2), vec![3]), Ok(()));
    assert_eq!(mempool.size(), 2);
}

#[test]
fn mempool_operations_never_fail() {
    let mut mempool = ConcreteMempoolService::default();
    let outcomes: Vec<Result<(), DigitalAssetError>> = vec![
        mempool.reserve_instruction_in_block(&[1], vec![1]),
        mempool.release_reservations(&[1]),
        mempool.remove_all_in_block(&[1]),
        mempool.submit_instruction(instruction(1)),
    ];
    assert_eq!(outcomes, vec![Ok(()), Ok(()), Ok(()), Ok(())]);
    assert!(mempool.read_block(1).is_ok());
}
