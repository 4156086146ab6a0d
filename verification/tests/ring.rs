use oxide_kernels::ring::{parity, slot};

#[test]
fn slots_and_parities_of_a_four_stage_ring() {
    let slots: Vec<u32> = (0..9).map(|i| slot(i, 4)).collect();
    assert_eq!(slots, vec![0, 1, 2, 3, 0, 1, 2, 3, 0]);
    let parities: Vec<u32> = (0..9).map(|i| parity(i, 4)).collect();
    assert_eq!(parities, vec![0, 0, 0, 0, 1, 1, 1, 1, 0]);
}
