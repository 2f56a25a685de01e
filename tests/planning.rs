use dgen_rs::entropy::mix_entropy;
use dgen_rs::region::touch_chunk;
use dgen_rs::block::fill_block;
use dgen_rs::plan::{plan, unique_block_count};

#[test]
fn unique_count_rounds_to_nearest() {
    assert_eq!(unique_block_count(3, 1), 3);
    assert_eq!(unique_block_count(10, 3), 3);
    assert_eq!(unique_block_count(5, 2), 3);
    assert_eq!(unique_block_count(7, 2), 4);
    assert_eq!(unique_block_count(1, 8), 1);
    assert_eq!(unique_block_count(100, 0), 100);
}

#[test]
fn ten_mib_at_four_mib_blocks_has_three_unique_blocks() {
    let p = plan(3, 1, 1, 4 * 1024 * 1024);
    assert_eq!(p.unique_blocks, 3);
    assert_eq!(p.copy_lens, vec![0, 0, 0]);
}

#[test]
fn quotas_sum_to_the_zero_budget() {
    let bs = 1024 * 1024 + 1;
    let p = plan(7, 1, 3, bs);
    let total: usize = p.copy_lens.iter().sum();
    assert_eq!(total, 7 * bs * 2 / 3);
    let share = bs * 2 / 3;
    assert!(p.copy_lens.iter().all(|l| *l == share || *l == share + 1));
}

#[test]
fn quotas_for_compress_two_are_half_a_block() {
    let p = plan(4, 2, 2, 1024 * 1024);
    assert_eq!(p.unique_blocks, 2);
    assert_eq!(p.copy_lens, vec![512 * 1024, 512 * 1024]);
}

#[test]
fn odd_budget_is_spread_evenly() {
    let p = plan(4, 1, 4, 10);
    assert_eq!(p.copy_lens, vec![7, 8, 7, 8]);
}

#[test]
fn fill_block_puts_zeros_at_the_end() {
    let mut block = vec![0xAAu8; 64];
    fill_block(&mut block, 16, 0, 1234);
    assert!(block[48..].iter().all(|b| *b == 0));
    assert!(block[..48].iter().any(|b| *b != 0 && *b != 0xAA));
    let mut all_zero = vec![0xAAu8; 8];
    fill_block(&mut all_zero, 100, 0, 1);
    assert_eq!(all_zero, vec![0u8; 8]);
}

#[test]
fn fill_block_seed_is_base_plus_sequence() {
    let mut a = vec![0u8; 32];
    let mut b = vec![0u8; 32];
    let mut c = vec![0u8; 32];
    fill_block(&mut a, 0, 5, 10);
    fill_block(&mut b, 0, 0, 15);
    fill_block(&mut c, 0, 6, 10);
    assert_eq!(a, b);
    assert_ne!(a, c);
    let mut w = vec![0u8; 32];
    let mut z = vec![0u8; 32];
    fill_block(&mut w, 0, 2, u64::MAX);
    fill_block(&mut z, 0, 1, 0);
    assert_eq!(w, z);
}

#[test]
fn entropy_mix_adds_modulo_two_to_the_64() {
    assert_eq!(mix_entropy(5, 7), 12);
    assert_eq!(mix_entropy(u64::MAX, 3), 2);
}

#[test]
fn touch_chunk_writes_only_the_ends() {
    let mut big = vec![7u8; 5000];
    touch_chunk(&mut big);
    assert_eq!(big[0], 0);
    assert_eq!(big[4999], 0);
    assert!(big[1..4999].iter().all(|b| *b == 7));
    let mut small = vec![7u8; 100];
    touch_chunk(&mut small);
    assert_eq!(small[0], 0);
    assert!(small[1..].iter().all(|b| *b == 7));
    let mut empty: Vec<u8> = Vec::new();
    touch_chunk(&mut empty);
    assert!(empty.is_empty());
}
