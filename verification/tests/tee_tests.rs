use sentinel::tee::{tee, ChunkSink};

#[test]
fn tee_duplicates_in_lockstep() {
    let input: Vec<u8> = (0u8..10).collect();
    let mut a = ChunkSink::new();
    let mut b = ChunkSink::new();
    tee(&input, 4, &mut a, &mut b);
    assert_eq!(a.chunks, b.chunks);
    let lens: Vec<usize> = a.chunks.iter().map(|c| c.len()).collect();
    assert_eq!(lens, vec![4, 4, 2, 0]);
    assert_eq!(a.chunks.concat(), input);
    assert!(a.chunks.last().unwrap().is_empty());
}

#[test]
fn tee_empty_input_sends_one_empty_write() {
    let input: Vec<u8> = Vec::new();
    let mut a = ChunkSink::new();
    let mut b = ChunkSink::new();
    tee(&input, 1024, &mut a, &mut b);
    assert_eq!(a.chunks, vec![Vec::<u8>::new()]);
    assert_eq!(b.chunks, vec![Vec::<u8>::new()]);
}

#[test]
fn tee_exact_multiple_of_chunk_size() {
    let input = vec![1u8, 2, 3, 4];
    let mut a = ChunkSink::new();
    let mut b = ChunkSink::new();
    tee(&input, 2, &mut a, &mut b);
    let lens: Vec<usize> = a.chunks.iter().map(|c| c.len()).collect();
    assert_eq!(lens, vec![2, 2, 0]);
    assert_eq!(a.chunks.concat(), input);
    assert_eq!(a.chunks, b.chunks);
}
