use river::io_traits::{Cursor, IoError, Read, Seek, SeekFrom};

#[test]
fn slice_read_stops_at_the_end() {
    let data: [u8; 3] = [1, 2, 3];
    let mut s: &[u8] = &data;
    let mut buf = [9u8; 5];
    assert_eq!(s.read(&mut buf), Ok(3));
    assert_eq!(buf, [1, 2, 3, 9, 9]);
    assert!(s.is_empty());
}

#[test]
fn slice_read_exact_leaves_all_on_error() {
    let data: [u8; 3] = [1, 2, 3];
    let mut s: &[u8] = &data;
    let mut buf = [9u8; 4];
    assert_eq!(s.read_exact(&mut buf), Err(IoError));
    assert_eq!(buf, [9; 4]);
    assert_eq!(s.len(), 3);
}

#[test]
fn cursor_seeks_from_everywhere() {
    let mut c = Cursor::new(vec![0u8, 1, 2, 3, 4, 5, 6, 7]);
    assert_eq!(c.seek(SeekFrom::Start(2)), Ok(2));
    let mut buf = [0u8; 2];
    assert_eq!(c.read_exact(&mut buf), Ok(()));
    assert_eq!(buf, [2, 3]);
    assert_eq!(c.seek(SeekFrom::Current(-3)), Ok(1));
    assert_eq!(c.rest().to_vec(), vec![1, 2, 3, 4, 5, 6, 7]);
    assert_eq!(c.seek(SeekFrom::End(-1)), Ok(7));
    assert_eq!(c.rest().to_vec(), vec![7]);
    assert_eq!(c.seek(SeekFrom::Current(-8)), Err(IoError));
    assert_eq!(c.seek(SeekFrom::End(5)), Ok(13));
    assert_eq!(c.into_inner().len(), 8);
}
