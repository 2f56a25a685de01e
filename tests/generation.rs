use dgen_rs::constants::BLOCK_SIZE;
use dgen_rs::{generate_data, generate_data_simple, DataGenerator, GeneratorConfig, NumaMode};
use std::collections::hash_map::DefaultHasher;
use std::hash::{Hash, Hasher};

fn hash_buffer(buf: &[u8]) -> u64 {
    let mut hasher = DefaultHasher::new();
    buf.hash(&mut hasher);
    hasher.finish()
}

fn config_with(size: usize, seed: Option<u64>) -> GeneratorConfig {
    GeneratorConfig {
        size,
        dedup_factor: 1,
        compress_factor: 1,
        numa_mode: NumaMode::Auto,
        max_threads: None,
        numa_node: None,
        block_size: None,
        seed,
    }
}

fn stream_all(gen: &mut DataGenerator, chunk_size: usize) -> Vec<u8> {
    let mut out = Vec::new();
    let mut chunk = vec![0u8; chunk_size];
    loop {
        let written = gen.fill_chunk(&mut chunk);
        if written == 0 {
            break;
        }
        out.extend_from_slice(&chunk[..written]);
    }
    out
}

#[test]
fn test_generate_minimal() {
    let data = generate_data_simple(100, 1, 1);
    assert_eq!(data.len(), BLOCK_SIZE);
}

#[test]
fn test_generate_exact_block() {
    let data = generate_data_simple(BLOCK_SIZE, 1, 1);
    assert_eq!(data.len(), BLOCK_SIZE);
}

#[test]
fn test_generate_multiple_blocks() {
    let size = BLOCK_SIZE * 10;
    let data = generate_data_simple(size, 1, 1);
    assert_eq!(data.len(), size);
}

#[test]
fn test_streaming_generator() {
    let config = config_with(BLOCK_SIZE * 5, None);
    let mut gen = DataGenerator::new(config.clone());
    let mut result = Vec::new();
    let chunk_size = BLOCK_SIZE;
    let mut chunk = vec![0u8; chunk_size];
    let mut iterations = 0;
    while !gen.is_complete() {
        let written = gen.fill_chunk(&mut chunk);
        if written == 0 {
            break;
        }
        result.extend_from_slice(&chunk[..written]);
        iterations += 1;
    }
    println!("Completed in {} iterations, generated {} bytes", iterations, result.len());
    assert_eq!(result.len(), config.size);
    assert!(gen.is_complete());
}

#[test]
fn test_set_seed_stream_reset() {
    let size = 30 * 1024 * 1024;
    let chunk_size = 10 * 1024 * 1024;
    let config = config_with(size, Some(111));

    let mut gen1 = DataGenerator::new(config.clone());
    let mut buf1 = vec![0u8; chunk_size];
    gen1.fill_chunk(&mut buf1);
    let hash1a = hash_buffer(&buf1);
    gen1.set_seed(Some(222));
    gen1.fill_chunk(&mut buf1);
    let hash1b = hash_buffer(&buf1);
    gen1.set_seed(Some(333));
    gen1.fill_chunk(&mut buf1);
    let hash1c = hash_buffer(&buf1);

    let mut gen2 = DataGenerator::new(config.clone());
    let mut buf2 = vec![0u8; chunk_size];
    gen2.fill_chunk(&mut buf2);
    let hash2a = hash_buffer(&buf2);
    gen2.set_seed(Some(222));
    gen2.fill_chunk(&mut buf2);
    let hash2b = hash_buffer(&buf2);
    gen2.set_seed(Some(333));
    gen2.fill_chunk(&mut buf2);
    let hash2c = hash_buffer(&buf2);

    assert_eq!(hash1a, hash2a, "Chunk 1 (seed=111) should match");
    assert_eq!(hash1b, hash2b, "Chunk 2 (seed=222) should match");
    assert_eq!(hash1c, hash2c, "Chunk 3 (seed=333) should match");

    let mut gen = DataGenerator::new(config_with(40 * 1024 * 1024, Some(1111)));
    let mut buf = vec![0u8; chunk_size];
    gen.set_seed(Some(1111));
    gen.fill_chunk(&mut buf);
    let stripe1_hash = hash_buffer(&buf);
    gen.set_seed(Some(2222));
    gen.fill_chunk(&mut buf);
    let stripe2_hash = hash_buffer(&buf);
    gen.set_seed(Some(1111));
    gen.fill_chunk(&mut buf);
    let stripe3_hash = hash_buffer(&buf);
    gen.set_seed(Some(2222));
    gen.fill_chunk(&mut buf);
    let stripe4_hash = hash_buffer(&buf);

    assert_eq!(stripe1_hash, stripe3_hash, "Stripe A should be reproducible");
    assert_eq!(stripe2_hash, stripe4_hash, "Stripe B should be reproducible");
    assert_ne!(stripe1_hash, stripe2_hash, "Stripe A and B should differ");
}

#[test]
fn zero_size_request_yields_one_block() {
    let data = generate_data(config_with(0, Some(5)));
    assert_eq!(data.len(), 4 * 1024 * 1024);
}

#[test]
fn ten_mib_request_is_truncated_to_ten_mib() {
    let data = generate_data(config_with(10 * 1024 * 1024, Some(9)));
    assert_eq!(data.len(), 10 * 1024 * 1024);
    assert!(!data.is_empty());
}

#[test]
fn one_shot_is_reproducible_with_a_seed() {
    let a = generate_data(config_with(9 * 1024 * 1024, Some(42)));
    let b = generate_data(config_with(9 * 1024 * 1024, Some(42)));
    let c = generate_data(config_with(9 * 1024 * 1024, Some(43)));
    assert_eq!(a.as_slice(), b.as_slice());
    assert_ne!(a.as_slice(), c.as_slice());
}

#[test]
fn stream_matches_one_shot_for_any_worker_count() {
    let size = 9 * 1024 * 1024 + 123;
    let one_shot = generate_data(config_with(size, Some(7)));
    let mut single = DataGenerator::new(GeneratorConfig { max_threads: Some(1), ..config_with(size, Some(7)) });
    let mut many = DataGenerator::new(GeneratorConfig { max_threads: Some(4), ..config_with(size, Some(7)) });
    let a = stream_all(&mut single, 2 * BLOCK_SIZE);
    let b = stream_all(&mut many, 2 * BLOCK_SIZE);
    assert_eq!(a.len(), size);
    assert_eq!(a, b);
    assert_eq!(a.as_slice(), one_shot.as_slice());
}

#[test]
fn block_aligned_chunking_does_not_change_the_stream() {
    let size = 6 * BLOCK_SIZE + 5;
    let mut whole = DataGenerator::new(config_with(size, Some(77)));
    let mut blockwise = DataGenerator::new(config_with(size, Some(77)));
    let mut doubled = DataGenerator::new(GeneratorConfig { max_threads: Some(3), ..config_with(size, Some(77)) });
    let a = stream_all(&mut whole, size);
    let b = stream_all(&mut blockwise, BLOCK_SIZE);
    let c = stream_all(&mut doubled, 2 * BLOCK_SIZE);
    assert_eq!(a, b);
    assert_eq!(a, c);
}

#[test]
fn unaligned_chunks_agree_between_sequential_and_parallel() {
    let size = 7 * BLOCK_SIZE;
    let mut single = DataGenerator::new(GeneratorConfig { max_threads: Some(1), ..config_with(size, Some(3)) });
    let mut many = DataGenerator::new(GeneratorConfig { max_threads: Some(4), ..config_with(size, Some(3)) });
    let chunk = 3 * BLOCK_SIZE - 1000;
    let a = stream_all(&mut single, chunk);
    let b = stream_all(&mut many, chunk);
    assert_eq!(a.len(), size);
    assert_eq!(a, b);
}

#[test]
fn completion_returns_zero_until_reset() {
    let mut gen = DataGenerator::new(config_with(BLOCK_SIZE, Some(1)));
    let mut buf = vec![0u8; 3 * 1024 * 1024];
    assert_eq!(gen.fill_chunk(&mut buf), 3 * 1024 * 1024);
    assert_eq!(gen.fill_chunk(&mut buf), 1024 * 1024);
    assert!(gen.is_complete());
    assert_eq!(gen.position(), gen.total_size());
    for _ in 0..3 {
        assert_eq!(gen.fill_chunk(&mut buf), 0);
    }
    gen.reset();
    assert_eq!(gen.position(), 0);
    assert!(!gen.is_complete());
    assert_eq!(gen.fill_chunk(&mut buf), 3 * 1024 * 1024);
}

#[test]
fn empty_chunk_writes_nothing() {
    let mut gen = DataGenerator::new(config_with(BLOCK_SIZE, Some(1)));
    let mut empty: Vec<u8> = Vec::new();
    assert_eq!(gen.fill_chunk(&mut empty), 0);
    assert_eq!(gen.position(), 0);
}

#[test]
fn reset_keeps_the_sequence_and_set_seed_restarts_it() {
    let mut gen = DataGenerator::new(config_with(BLOCK_SIZE, Some(10)));
    let first = stream_all(&mut gen, BLOCK_SIZE);
    gen.reset();
    let after_reset = stream_all(&mut gen, BLOCK_SIZE);
    assert_ne!(first, after_reset);
    gen.reset();
    gen.set_seed(Some(10));
    let after_reseed = stream_all(&mut gen, BLOCK_SIZE);
    assert_eq!(first, after_reseed);
}

#[test]
fn compress_factor_two_zeroes_half_of_each_block() {
    let mib = 1024 * 1024;
    let config = GeneratorConfig {
        compress_factor: 2,
        block_size: Some(mib),
        ..config_with(4 * mib, Some(99))
    };
    let data = generate_data(config);
    let bytes = data.as_slice();
    for block in bytes.chunks(mib) {
        let trailing = block.iter().rev().take_while(|b| **b == 0).count();
        assert!(trailing >= 512 * 1024);
        assert!(trailing < 512 * 1024 + 64);
        assert!(block[..512 * 1024].iter().any(|b| *b != 0));
    }
}

#[test]
fn disabled_numa_mode_is_deterministic() {
    let config = GeneratorConfig { numa_mode: NumaMode::Disabled, numa_node: Some(0), ..config_with(5 * 1024 * 1024, Some(21)) };
    let a = generate_data(config);
    let b = generate_data(config);
    assert_eq!(a.as_slice(), b.as_slice());
    let mut gen = DataGenerator::new(config);
    assert_eq!(stream_all(&mut gen, BLOCK_SIZE).as_slice(), a.as_slice());
}

#[test]
fn truncate_only_shortens() {
    let mut data = generate_data(config_with(BLOCK_SIZE, Some(2)));
    let head: Vec<u8> = data.as_slice()[..100].to_vec();
    data.truncate(100);
    assert_eq!(data.len(), 100);
    assert_eq!(data.as_slice(), head.as_slice());
    data.truncate(1000);
    assert_eq!(data.len(), 100);
    let bytes = data.into_bytes();
    assert_eq!(&bytes[..], head.as_slice());
}

#[test]
fn recommended_chunk_size_is_32_mib() {
    assert_eq!(DataGenerator::recommended_chunk_size(), 32 * 1024 * 1024);
}

#[test]
fn config_defaults_and_clamping() {
    let d = GeneratorConfig::default();
    assert_eq!(d.size, BLOCK_SIZE);
    assert_eq!(d.dedup_factor, 1);
    assert_eq!(d.compress_factor, 1);
    assert_eq!(d.numa_mode, NumaMode::Auto);
    assert_eq!(NumaMode::default(), NumaMode::Auto);
    assert_eq!(d.effective_block_size(), 4 * 1024 * 1024);
    let small = GeneratorConfig { block_size: Some(1), ..d };
    assert_eq!(small.effective_block_size(), 1024 * 1024);
    let large = GeneratorConfig { block_size: Some(usize::MAX), ..d };
    assert_eq!(large.effective_block_size(), 32 * 1024 * 1024);
    let ten = GeneratorConfig { size: 10 * 1024 * 1024, ..d };
    assert_eq!(ten.block_count(), 3);
    assert_eq!(ten.effective_size(), 10 * 1024 * 1024);
}

#[test]
fn placement_settings_do_not_change_one_shot_bytes() {
    let base = config_with(6 * 1024 * 1024, Some(8));
    let a = generate_data(GeneratorConfig { numa_mode: NumaMode::Disabled, max_threads: Some(1), ..base });
    let b = generate_data(GeneratorConfig { numa_mode: NumaMode::Force, max_threads: Some(3), ..base });
    assert_eq!(a.as_slice(), b.as_slice());
}

#[test]
fn any_chunking_gives_the_same_stream() {
    let size = 5 * BLOCK_SIZE + 17;
    let mut whole = DataGenerator::new(config_with(size, Some(31)));
    let reference = stream_all(&mut whole, size);
    for chunk in [BLOCK_SIZE / 2 * 3, 1000 * 1000, BLOCK_SIZE - 1, 3 * BLOCK_SIZE + 5] {
        for threads in [1usize, 4] {
            let mut gen = DataGenerator::new(GeneratorConfig { max_threads: Some(threads), ..config_with(size, Some(31)) });
            assert_eq!(stream_all(&mut gen, chunk), reference);
        }
    }
}

#[test]
fn mixed_chunk_sizes_give_the_same_stream() {
    let size = 4 * BLOCK_SIZE;
    let mut a = DataGenerator::new(config_with(size, Some(12)));
    let mut b = DataGenerator::new(GeneratorConfig { max_threads: Some(3), ..config_with(size, Some(12)) });
    let one = stream_all(&mut a, 2 * BLOCK_SIZE);
    let mut two = Vec::new();
    for len in [BLOCK_SIZE + BLOCK_SIZE / 2, BLOCK_SIZE / 2, 7, BLOCK_SIZE * 2] {
        let mut buf = vec![0u8; len];
        let n = b.fill_chunk(&mut buf);
        two.extend_from_slice(&buf[..n]);
    }
    assert_eq!(one, two);
}
