use std::rc::Rc;
use std::str;

use colbuf::buffer::Buffer;
use colbuf::list::List;

#[test]
fn test_utf8_slices() {
    let list = List::from_strs(vec!["this", "is", "a", "test"]);
    assert_eq!(4, list.len());
    assert_eq!("this", str::from_utf8(list.slice(0)).unwrap());
    assert_eq!("is", str::from_utf8(list.slice(1)).unwrap());
    assert_eq!("a", str::from_utf8(list.slice(2)).unwrap());
    assert_eq!("test", str::from_utf8(list.slice(3)).unwrap());
}

#[test]
fn test_from_owned_strings() {
    let list = List::from(vec![String::from("hello"), String::from("world")]);
    assert_eq!(2, list.len());
    assert_eq!("hello", str::from_utf8(list.slice(0)).unwrap());
    assert_eq!("world", str::from_utf8(list.slice(1)).unwrap());
    assert_eq!(10, list.data.len());
    assert_eq!(&[0, 5, 10], list.offsets.data());
}

#[test]
fn test_empty_list() {
    let list = List::from(Vec::new());
    assert_eq!(0, list.len());
    assert_eq!(1, list.offsets.len());
    assert_eq!(&[0], list.offsets.data());
    assert_eq!(0, list.data.len());
    assert!(list.try_slice(0).is_none());
}

#[test]
fn test_empty_strings() {
    let list = List::from_strs(vec!["", ""]);
    assert_eq!(2, list.len());
    assert_eq!(&[0, 0, 0], list.offsets.data());
    assert_eq!("", str::from_utf8(list.slice(0)).unwrap());
    assert_eq!("", str::from_utf8(list.slice(1)).unwrap());
}

#[test]
fn test_out_of_bounds_slice() {
    let list = List::from_strs(vec!["this", "is", "a", "test"]);
    assert!(list.try_slice(4).is_none());
    assert!(list.try_slice(1000).is_none());
    assert!(list.try_slice(3).is_some());
}

#[test]
fn test_multibyte_strings() {
    let list = List::from_strs(vec!["héllo", "wörld", "✓"]);
    assert_eq!(3, list.len());
    assert_eq!("héllo", str::from_utf8(list.slice(0)).unwrap());
    assert_eq!("wörld", str::from_utf8(list.slice(1)).unwrap());
    assert_eq!("✓", str::from_utf8(list.slice(2)).unwrap());
}

#[test]
fn test_validate() {
    let good = List::from_strs(vec!["ab", "c"]);
    assert!(good.validate());

    let decreasing: List<u8> = List {
        data: Rc::new(Buffer::from(vec![1u8, 2, 3, 4, 5])),
        offsets: Rc::new(Buffer::from(vec![0, 4, 2, 5])),
    };
    assert!(!decreasing.validate());

    let wrong_total: List<u8> = List {
        data: Rc::new(Buffer::from(vec![1u8, 2, 3, 4, 5])),
        offsets: Rc::new(Buffer::from(vec![0, 2, 4])),
    };
    assert!(!wrong_total.validate());

    let no_offsets: List<u8> = List {
        data: Rc::new(Buffer::from(Vec::new())),
        offsets: Rc::new(Buffer::from(Vec::new())),
    };
    assert!(!no_offsets.validate());

    let nonzero_start: List<u8> = List {
        data: Rc::new(Buffer::from(vec![1u8, 2])),
        offsets: Rc::new(Buffer::from(vec![1, 2])),
    };
    assert!(!nonzero_start.validate());
}

#[test]
fn test_shared_buffers() {
    let list = List::from_strs(vec!["ab", "cd"]);
    let other = List { data: Rc::clone(&list.data), offsets: Rc::clone(&list.offsets) };
    assert_eq!("ab", str::from_utf8(other.slice(0)).unwrap());
    assert_eq!("cd", str::from_utf8(list.slice(1)).unwrap());
    assert_eq!(2, Rc::strong_count(&list.data));
}
