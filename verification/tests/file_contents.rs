use samply_core::shared::{FileContents, FileContentsWrapper};

#[test]
fn vec_reads_bytes_inside_the_file() {
    let data: Vec<u8> = vec![1, 2, 3, 4, 5];
    assert_eq!(data.read_bytes_at(1, 3).ok().unwrap(), &[2, 3, 4]);
    assert_eq!(data.read_bytes_at(5, 0).ok().unwrap(), &[] as &[u8]);
    assert!(data.read_bytes_at(3, 3).is_err());
    assert!(data.read_bytes_at(6, 0).is_err());
}

#[test]
fn vec_reads_bytes_until_a_delimiter() {
    let data: Vec<u8> = b"ab\0cd\0".to_vec();
    assert_eq!(data.read_bytes_at_until(0..6, 0).ok().unwrap(), b"ab");
    assert_eq!(data.read_bytes_at_until(3..6, 0).ok().unwrap(), b"cd");
    assert!(data.read_bytes_at_until(3..5, 0).is_err());
    assert!(data.read_bytes_at_until(4..3, 0).is_err());
    assert!(data.read_bytes_at_until(0..7, 0).is_err());
}

#[test]
fn vec_appends_read_bytes_to_a_buffer() {
    let data: Vec<u8> = vec![1, 2, 3, 4, 5];
    let mut buffer = vec![9];
    data.read_bytes_into(&mut buffer, 2, 2).ok().unwrap();
    assert_eq!(buffer, vec![9, 3, 4]);
    assert!(data.read_bytes_into(&mut buffer, 4, 2).is_err());
    assert_eq!(buffer, vec![9, 3, 4]);
}

#[test]
fn wrapper_reads_the_entire_file() {
    let wrapper = FileContentsWrapper::new(vec![7u8, 8, 9]);
    assert_eq!(wrapper.len(), 3);
    assert_eq!(wrapper.read_entire_data().ok().unwrap(), &[7, 8, 9]);
    assert_eq!(wrapper.read_bytes_at(1, 2).ok().unwrap(), &[8, 9]);
    assert!(wrapper.read_bytes_at(2, 2).is_err());
}
