use bytes::Bytes;
use colbuf::buffer::Buffer;

#[test]
fn test_buffer_i32() {
    let b: Buffer<i32> = Buffer::from(vec![1, 2, 3, 4, 5]);
    assert_eq!(5, b.len());
}

#[test]
fn test_iterator_i32() {
    let b: Buffer<i32> = Buffer::from(vec![1, 2, 3, 4, 5]);
    let mut it = b.iter();
    let mut v: Vec<i32> = Vec::new();
    while let Some(n) = it.next() {
        v.push(n + 1);
    }
    assert_eq!(vec![2, 3, 4, 5, 6], v);
}

#[test]
fn test_iterator_restarts() {
    let b: Buffer<u16> = Buffer::from(vec![7, 8, 9]);
    let mut first = b.iter();
    let mut second = b.iter();
    let mut v1: Vec<u16> = Vec::new();
    while let Some(n) = first.next() {
        v1.push(n);
    }
    let mut v2: Vec<u16> = Vec::new();
    while let Some(n) = second.next() {
        v2.push(n);
    }
    assert_eq!(v1, v2);
    assert_eq!(vec![7, 8, 9], v1);
    assert_eq!(3, b.len());
    assert_eq!(Some(&7), b.try_get(0));
}

#[test]
fn test_get_and_slice() {
    let b: Buffer<i64> = Buffer::from(vec![10, 20, 30, 40]);
    assert_eq!(20, *b.get(1));
    assert_eq!(&[20, 30], b.slice(1, 3));
    assert_eq!(&[10, 20, 30, 40], b.data());
    let empty = b.slice(2, 2);
    assert_eq!(0, empty.len());
}

#[test]
fn test_set_during_build() {
    let mut b: Buffer<i32> = Buffer::from(vec![1, 2, 3]);
    b.set(1, 22);
    assert_eq!(22, *b.get(1));
    assert_eq!(&[1, 22, 3], b.data());
}

#[test]
fn test_bounds_checked_access() {
    let b: Buffer<i32> = Buffer::from(vec![1, 2, 3]);
    assert_eq!(None, b.try_get(3));
    assert_eq!(None, b.try_get(100));
    assert_eq!(Some(&3), b.try_get(2));
    assert!(b.try_slice(2, 1).is_none());
    assert!(b.try_slice(1, 4).is_none());
    assert_eq!(Some(&[2, 3][..]), b.try_slice(1, 3));

    let empty: Buffer<i32> = Buffer::from(Vec::new());
    assert_eq!(0, empty.len());
    assert_eq!(None, empty.try_get(0));
    assert!(empty.try_slice(0, 1).is_none());
    assert_eq!(Some(&[][..]), empty.try_slice(0, 0));
}

#[test]
fn test_from_bytes_copies_payload() {
    let payload = Bytes::from(vec![5u8, 6, 7, 8]);
    let b: Buffer<u8> = Buffer::from_bytes(payload);
    assert_eq!(4, b.len());
    assert_eq!(&[5, 6, 7, 8], b.data());
    assert_eq!(7, *b.get(2));

    let other = Bytes::from(vec![1u8, 2]);
    let c = Buffer::try_from_bytes(other).unwrap();
    assert_eq!(2, c.len());
    assert_eq!(&[1, 2], c.data());
}

#[test]
fn test_byte_extent() {
    let b: Buffer<i32> = Buffer::from(vec![1, 2, 3, 4, 5]);
    assert_eq!(Some(20), b.byte_len());
    let e = b.extent(128).unwrap();
    assert_eq!(128, e.offset);
    assert_eq!(20, e.length);

    let empty: Buffer<u8> = Buffer::from(Vec::new());
    assert_eq!(Some(0), empty.byte_len());
}
