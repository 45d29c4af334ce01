use read_iter::FailSource;
use read_iter::MemSource;
use read_iter::ReadIter;

#[test]
fn test_1() {
    let reader = MemSource::new(r#"Hello"#.as_bytes().to_vec());
    let it = &mut ReadIter::new(reader);
    assert_eq!(it.next(), Some(b'H'));
    assert_eq!(it.next(), Some(b'e'));
    assert_eq!(it.next(), Some(b'l'));
    assert_eq!(it.next(), Some(b'l'));
    assert_eq!(it.next(), Some(b'o'));
    assert_eq!(it.next(), None);
    it.take_last_error().unwrap();
}

#[test]
fn test_2() {
    let reader = MemSource::new(r#"Hello"#.as_bytes().to_vec());
    let it = &mut ReadIter::new(reader);
    // read byte by byte through the whole-buffer interface
    let mut one = vec![0u8; 1];
    let mut next_byte = |it: &mut ReadIter<MemSource>| match it.read(&mut one) {
        Ok(0) => None,
        Ok(_) => Some(one[0]),
        Err(_) => None,
    };
    assert_eq!(next_byte(it), Some(b'H'));
    assert_eq!(next_byte(it), Some(b'e'));
    assert_eq!(next_byte(it), Some(b'l'));
    assert_eq!(next_byte(it), Some(b'l'));
    assert_eq!(next_byte(it), Some(b'o'));
    assert_eq!(next_byte(it), None);
    it.take_last_error().unwrap();
}

#[test]
fn whole_buffer_reads_reconstruct() {
    let it = &mut ReadIter::new(MemSource::new("Hello".as_bytes().to_vec()));
    let mut buf = vec![0u8; 3];
    assert_eq!(it.read(&mut buf).unwrap(), 3);
    assert_eq!(&buf[..3], b"Hel");
    assert_eq!(it.read(&mut buf).unwrap(), 2);
    assert_eq!(&buf[..2], b"lo");
    assert_eq!(it.read(&mut buf).unwrap(), 0);
}

#[test]
fn reads_with_varied_buffers() {
    let it = &mut ReadIter::new(MemSource::new("Hello".as_bytes().to_vec()));
    let mut collected: Vec<u8> = Vec::new();
    for size in [2usize, 1, 4] {
        let mut buf = vec![0u8; size];
        let n = it.read(&mut buf).unwrap();
        collected.extend_from_slice(&buf[..n]);
    }
    assert_eq!(collected, b"Hello".to_vec());
    let mut buf = vec![0u8; 4];
    assert_eq!(it.read(&mut buf).unwrap(), 0);
}

#[test]
fn read_with_large_buffer() {
    let it = &mut ReadIter::new(MemSource::new("Hello".as_bytes().to_vec()));
    let mut buf = vec![0u8; 10];
    assert_eq!(it.read(&mut buf).unwrap(), 5);
    assert_eq!(&buf[..5], b"Hello");
    assert_eq!(it.read(&mut buf).unwrap(), 0);
}

#[test]
fn peek_then_consume_advances() {
    let it = &mut ReadIter::new(MemSource::new("Hello".as_bytes().to_vec()));
    assert_eq!(it.fill_buf().unwrap().to_vec(), b"Hello".to_vec());
    // no refill while unread bytes remain: the same view comes back
    assert_eq!(it.fill_buf().unwrap().to_vec(), b"Hello".to_vec());
    it.consume(0);
    assert_eq!(it.fill_buf().unwrap().to_vec(), b"Hello".to_vec());
    it.consume(2);
    assert_eq!(it.fill_buf().unwrap().to_vec(), b"llo".to_vec());
    it.consume(3);
    assert!(it.fill_buf().unwrap().is_empty());
}

#[test]
fn interleaving_keeps_stream() {
    let it = &mut ReadIter::new(MemSource::new("Hello".as_bytes().to_vec()));
    assert_eq!(it.next(), Some(b'H'));
    assert_eq!(it.fill_buf().unwrap().to_vec(), b"ello".to_vec());
    it.consume(2);
    let mut buf = vec![0u8; 2];
    assert_eq!(it.read(&mut buf).unwrap(), 2);
    assert_eq!(&buf[..], b"lo");
    assert_eq!(it.next(), None);
    it.take_last_error().unwrap();
}

#[test]
fn read_then_peek() {
    let it = &mut ReadIter::new(MemSource::new("Hello".as_bytes().to_vec()));
    let mut buf = vec![0u8; 2];
    assert_eq!(it.read(&mut buf).unwrap(), 2);
    assert_eq!(&buf[..], b"He");
    assert_eq!(it.fill_buf().unwrap().to_vec(), b"llo".to_vec());
    it.consume(1);
    assert_eq!(it.next(), Some(b'l'));
    assert_eq!(it.read(&mut buf).unwrap(), 1);
    assert_eq!(buf[0], b'o');
    assert_eq!(it.read(&mut buf).unwrap(), 0);
}

#[test]
fn failure_is_stored_and_taken_once() {
    let it = &mut ReadIter::new(FailSource::new(42));
    assert_eq!(it.next(), None);
    assert!(it.last_error().is_some());
    // a second failure does not overwrite the stored error
    assert_eq!(it.next(), None);
    assert_eq!(it.take_last_error(), Err(42));
    assert!(it.last_error().is_none());
    assert_eq!(it.take_last_error(), Ok(()));
}

#[test]
fn fill_buf_failure_is_synchronous() {
    let it = &mut ReadIter::new(FailSource::new(7));
    assert_eq!(it.fill_buf().unwrap_err(), 7);
    // the peek path does not store the failure
    assert!(it.last_error().is_none());
    assert!(it.take_last_error().is_ok());
}

#[test]
fn read_failure_passes_through() {
    let it = &mut ReadIter::new(FailSource::new(9));
    let mut buf = vec![0u8; 4];
    assert_eq!(it.read(&mut buf).unwrap_err(), 9);
    assert!(it.last_error().is_none());
}

#[test]
fn drain_collects_everything() {
    let it = &mut ReadIter::new(MemSource::new("Hello".as_bytes().to_vec()));
    assert_eq!(it.drain(), b"Hello".to_vec());
    assert!(it.take_last_error().is_ok());
    assert_eq!(it.next(), None);
}

#[test]
fn drain_on_failure_stores_error() {
    let it = &mut ReadIter::new(FailSource::new(3));
    assert!(it.drain().is_empty());
    assert_eq!(it.take_last_error(), Err(3));
    assert_eq!(it.take_last_error(), Ok(()));
}

#[test]
fn empty_source() {
    let it = &mut ReadIter::new(MemSource::new(Vec::new()));
    assert_eq!(it.next(), None);
    assert!(it.take_last_error().is_ok());
    let mut buf = vec![0u8; 4];
    assert_eq!(it.read(&mut buf).unwrap(), 0);
    assert!(it.fill_buf().unwrap().is_empty());
}
