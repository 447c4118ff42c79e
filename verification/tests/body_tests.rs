use minihttp::BodyReader;

#[test]
fn reads_are_capped_at_the_chunk_limit() {
    let mut b = BodyReader::new(5000);
    assert_eq!(b.remaining(), 5000);
    assert_eq!(b.next_read_len(), 1024);
    b.apply_read(1024);
    assert_eq!(b.remaining(), 3976);
    assert_eq!(b.next_read_len(), 1024);
}

#[test]
fn small_bodies_request_exactly_the_remainder() {
    let mut b = BodyReader::new(10);
    assert_eq!(b.next_read_len(), 10);
    b.apply_read(10);
    assert!(b.is_drained());
    assert_eq!(b.next_read_len(), 0);
}

#[test]
fn chunks_sum_to_the_declared_length() {
    let mut b = BodyReader::new(2500);
    let mut total = 0;
    while b.next_read_len() > 0 {
        let n = b.next_read_len();
        b.apply_read(n);
        total += n;
    }
    assert_eq!(total, 2500);
    assert!(b.is_drained());
}

#[test]
fn early_peer_close_forces_the_counter_to_zero() {
    let mut b = BodyReader::new(100);
    b.apply_read(40);
    b.apply_read(0);
    assert!(b.is_drained());
    assert_eq!(b.next_read_len(), 0);
}

#[test]
fn missing_content_length_means_an_immediately_empty_body() {
    let b = BodyReader::new(0);
    assert!(b.is_drained());
    assert_eq!(b.next_read_len(), 0);
}

#[test]
fn draining_a_drained_body_is_a_no_op() {
    let mut b = BodyReader::new(17);
    b.apply_read(17);
    assert!(b.is_drained());
    // The drain loop reads only while the counter is positive, so a
    // second drain never issues a read.
    assert_eq!(b.next_read_len(), 0);
    assert_eq!(b.remaining(), 0);
    assert!(b.is_drained());
}
