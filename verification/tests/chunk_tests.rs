use cpb::chunk::copy_in_chunks_bytes;

#[test]
fn ten_bytes_one_chunk_and_terminal_zero() {
    let data: Vec<u8> = b"0123456789".to_vec();
    let (out, deltas) = copy_in_chunks_bytes(&data, 8192);
    assert_eq!(out, data);
    assert_eq!(deltas, vec![10, 0]);
}

#[test]
fn zero_byte_file_gives_exactly_one_zero_delta() {
    let data: Vec<u8> = Vec::new();
    let (out, deltas) = copy_in_chunks_bytes(&data, 4);
    assert!(out.is_empty());
    assert_eq!(deltas, vec![0]);
}

#[test]
fn chunk_size_never_changes_the_bytes() {
    let data: Vec<u8> = (0u8..23).collect();
    let (a, _) = copy_in_chunks_bytes(&data, 1);
    let (b, _) = copy_in_chunks_bytes(&data, 7);
    let (c, _) = copy_in_chunks_bytes(&data, 8192);
    assert_eq!(a, data);
    assert_eq!(b, data);
    assert_eq!(c, data);
}

#[test]
fn exact_delta_sequences() {
    let data: Vec<u8> = vec![1; 16];
    let (_, deltas) = copy_in_chunks_bytes(&data, 8);
    assert_eq!(deltas, vec![8, 8, 0]);

    let data: Vec<u8> = vec![2; 20];
    let (_, deltas) = copy_in_chunks_bytes(&data, 8);
    assert_eq!(deltas, vec![8, 8, 4, 0]);

    let data: Vec<u8> = vec![3; 5];
    let (_, deltas) = copy_in_chunks_bytes(&data, 5);
    assert_eq!(deltas, vec![5, 0]);
}

#[test]
fn deltas_sum_to_the_file_size() {
    let data: Vec<u8> = vec![9; 100];
    let (_, deltas) = copy_in_chunks_bytes(&data, 7);
    assert_eq!(deltas.iter().sum::<usize>(), 100);
}

#[test]
fn copying_a_copy_changes_nothing() {
    let data: Vec<u8> = b"idempotent".to_vec();
    let (once, _) = copy_in_chunks_bytes(&data, 3);
    let (twice, _) = copy_in_chunks_bytes(&once, 3);
    assert_eq!(twice, once);
    assert_eq!(twice, data);
}
