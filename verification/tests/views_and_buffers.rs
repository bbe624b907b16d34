use byte_string::escape::to_hex;
use byte_string::ByteStr;
use byte_string::ByteStrMut;
use byte_string::ByteString;

#[test]
fn views_read_their_bytes() {
    let v = ByteStr::from_slice(b"abc");
    assert_eq!(v.len(), 3);
    assert!(!v.is_empty());
    assert!(ByteStr::empty().is_empty());
    assert_eq!(v.as_slice(), b"abc");
    assert_eq!(v.to_vec(), b"abc".to_vec());
    assert_eq!(v.into_vec(), b"abc".to_vec());
    assert_eq!(v.to_byte_string().as_slice(), b"abc");
    assert_eq!(v.into_byte_string().as_slice(), b"abc");
    assert_eq!(v.index(1), b'b');
    assert_eq!(v.get(2), Some(&b'c'));
    assert_eq!(v.get(3), None);
    assert_eq!(v.first(), Some(&b'a'));
    assert_eq!(v.last(), Some(&b'c'));
    assert_eq!(ByteStr::empty().first(), None);
    assert_eq!(ByteStr::empty().last(), None);
    assert_eq!(v.iter().copied().collect::<Vec<u8>>(), b"abc".to_vec());
    assert_eq!(ByteStr::default(), ByteStr::empty());
    assert!(v == ByteStr::from_slice(b"abc"));
    assert!(v != ByteStr::from_slice(b"abd"));
    assert!(v != ByteStr::from_slice(b"ab"));
}

#[test]
fn views_compare_by_their_bytes() {
    let v = ByteStr::from_slice(b"abc");
    let slice: &[u8] = b"abc";
    assert!(v == *slice);
    assert!(v == *b"abc");
    assert!(v != *b"abd");
    assert!(v != *b"abcd");
    assert!(v == ByteString::from_slice(b"abc"));
    assert!(v != ByteString::new());
    assert!(ByteString::from_slice(b"abc") == v);
    assert!(ByteString::from_slice(b"ab") != v);
    assert!(v.eq_slice(b"abc"));
    assert!(!v.eq_slice(b""));
    assert!(ByteStr::empty().eq_slice(b""));
    assert_eq!(&*v.into_boxed_slice(), b"abc");
}

#[test]
fn views_are_cut_where_asked() {
    let v = ByteStr::from_slice(b"abcdef");
    let (a, b) = v.split_at(2);
    assert_eq!((a.as_slice(), b.as_slice()), (&b"ab"[..], &b"cdef"[..]));
    let (a, b) = v.split_at(0);
    assert_eq!((a.as_slice(), b.as_slice()), (&b""[..], &b"abcdef"[..]));
    let (a, b) = v.split_at(6);
    assert_eq!((a.as_slice(), b.as_slice()), (&b"abcdef"[..], &b""[..]));
    assert_eq!(v.slice(1, 4).as_slice(), b"bcd");
    assert_eq!(v.slice_from(4).as_slice(), b"ef");
    assert_eq!(v.slice_to(4).as_slice(), b"abcd");
    let (f, rest) = v.split_first().unwrap();
    assert_eq!((*f, rest.as_slice()), (b'a', &b"bcdef"[..]));
    let (l, rest) = v.split_last().unwrap();
    assert_eq!((*l, rest.as_slice()), (b'f', &b"abcde"[..]));
    assert!(ByteStr::empty().split_first().is_none());
    assert!(ByteStr::empty().split_last().is_none());
}

#[test]
fn exclusive_views_write_through() {
    let mut buf = *b"abcdef";
    {
        let mut v = ByteStrMut::from_slice_mut(&mut buf);
        assert_eq!(v.len(), 6);
        assert!(!v.is_empty());
        assert_eq!(v.index(0), b'a');
        v.swap(0, 5);
        v.set(1, b'B');
        *v.get_mut(2).unwrap() = b'C';
        assert!(v.get_mut(6).is_none());
        *v.first_mut().unwrap() = b'F';
        *v.last_mut().unwrap() = b'A';
        assert_eq!(v.as_byte_str().as_slice(), b"FBCdeA");
        v.reverse();
        assert_eq!(v.as_byte_str().as_slice(), b"AedCBF");
        {
            let mut again = v.reborrow();
            again.set(0, b'a');
        }
        let (mut left, mut right) = v.split_at_mut(3);
        left.copy_from_slice(b"123");
        right.copy_from_byte_str(&ByteStr::from_slice(b"456"));
    }
    assert_eq!(&buf, b"123456");
    {
        let v = ByteStrMut::from_slice_mut(&mut buf);
        let (first, rest) = v.split_first_mut().unwrap();
        *first = b'x';
        let (last, mut middle) = rest.split_last_mut().unwrap();
        *last = b'z';
        middle.reverse();
    }
    assert_eq!(&buf, b"x5432z");
    {
        let v = ByteStrMut::from_slice_mut(&mut buf);
        let tail = v.slice_from_mut(4);
        let slice = tail.as_mut_slice();
        slice[0] = b'!';
    }
    assert_eq!(&buf, b"x543!z");
    {
        let v = ByteStrMut::from_slice_mut(&mut buf);
        let mut head = v.slice_to_mut(2);
        head.set(1, b'?');
        assert_eq!(head.into_byte_str().as_slice(), b"x?");
    }
    assert_eq!(&buf, b"x?43!z");
    assert!(ByteStrMut::empty_mut().is_empty());
    assert!(ByteStr::empty_mut().is_empty());
    {
        let mut v = ByteStr::from_slice_mut(&mut buf);
        v.set(0, b'X');
    }
    assert_eq!(&buf, b"X?43!z");
    assert!(ByteStrMut::default().is_empty());
    assert!(ByteStrMut::empty_mut().split_first_mut().is_none());
    assert!(ByteStrMut::empty_mut().split_last_mut().is_none());
    assert!(ByteStrMut::empty_mut().first_mut().is_none());
    assert!(ByteStrMut::empty_mut().last_mut().is_none());
}

#[test]
fn reverse_handles_odd_and_even_lengths() {
    let mut odd = *b"abc";
    ByteStrMut::from_slice_mut(&mut odd).reverse();
    assert_eq!(&odd, b"cba");
    let mut even = *b"abcd";
    ByteStrMut::from_slice_mut(&mut even).reverse();
    assert_eq!(&even, b"dcba");
    let mut none: [u8; 0] = [];
    ByteStrMut::from_slice_mut(&mut none).reverse();
}

#[test]
fn windows_overlap_and_chunks_do_not() {
    let v = ByteStr::from_slice(b"abcde");
    let mut w = v.windows(2);
    assert_eq!(w.len(), 4);
    assert_eq!(w.next().map(|s| s.to_vec()), Some(b"ab".to_vec()));
    assert_eq!(w.next_back().map(|s| s.to_vec()), Some(b"de".to_vec()));
    assert_eq!(w.len(), 2);
    assert_eq!(w.next().map(|s| s.to_vec()), Some(b"bc".to_vec()));
    assert_eq!(w.next().map(|s| s.to_vec()), Some(b"cd".to_vec()));
    assert!(w.next().is_none());
    assert!(w.next_back().is_none());
    assert_eq!(w.len(), 0);
    assert!(v.windows(6).next().is_none());
    assert_eq!(v.windows(5).len(), 1);

    let mut c = v.chunks(2);
    assert_eq!(c.len(), 3);
    assert_eq!(c.next().map(|s| s.to_vec()), Some(b"ab".to_vec()));
    assert_eq!(c.next_back().map(|s| s.to_vec()), Some(b"e".to_vec()));
    assert_eq!(c.next_back().map(|s| s.to_vec()), Some(b"cd".to_vec()));
    assert!(c.next().is_none());
    assert!(c.next_back().is_none());
    assert_eq!(c.len(), 0);
    assert_eq!(ByteStr::from_slice(b"abcd").chunks(2).len(), 2);
    assert_eq!(ByteStr::from_slice(b"abcd").chunks(9).next().map(|s| s.to_vec()), Some(b"abcd".to_vec()));
}

#[test]
fn chunks_mut_hand_out_every_byte_once() {
    let mut buf = *b"abcdefg";
    let mut c = ByteStrMut::from_slice_mut(&mut buf).chunks_mut(3);
    assert_eq!(c.len(), 3);
    assert_eq!(c.next_back().map(|s| s.to_vec()), Some(b"g".to_vec()));
    assert_eq!(c.next().map(|s| s.to_vec()), Some(b"abc".to_vec()));
    assert_eq!(c.next().map(|s| s.to_vec()), Some(b"def".to_vec()));
    assert!(c.next().is_none());
    assert!(c.next_back().is_none());
}

#[test]
fn byte_string_grows_and_shrinks() {
    let mut s = ByteString::new();
    assert!(s.is_empty());
    assert_eq!(ByteString::default().len(), 0);
    s.push(b'a');
    s.push_slice(b"bc");
    s.push_byte_str(&ByteStr::from_slice(b"de"));
    assert_eq!(s.as_slice(), b"abcde");
    assert_eq!(s.len(), 5);
    assert_eq!(s.pop(), Some(b'e'));
    s.insert(0, b'_');
    assert_eq!(s.as_slice(), b"_abcd");
    assert_eq!(s.remove(1), b'a');
    assert_eq!(s.as_slice(), b"_bcd");
    assert_eq!(s.swap_remove(0), b'_');
    assert_eq!(s.as_slice(), b"dbc");
    s.insert_slice(1, b"12");
    assert_eq!(s.as_slice(), b"d12bc");
    s.insert_byte_str(5, &ByteStr::from_slice(b"!"));
    assert_eq!(s.as_slice(), b"d12bc!");
    s.insert_slice(0, b"");
    assert_eq!(s.as_slice(), b"d12bc!");
    let tail = s.split_off(4);
    assert_eq!((s.as_slice(), tail.as_slice()), (&b"d12b"[..], &b"c!"[..]));
    s.truncate(9);
    assert_eq!(s.as_slice(), b"d12b");
    s.truncate(2);
    assert_eq!(s.as_slice(), b"d1");
    s.clear();
    assert!(s.is_empty());
    assert_eq!(s.pop(), None);
}

#[test]
fn byte_string_drains_a_range() {
    let mut s = ByteString::from_slice(b"abcdef");
    assert_eq!(s.drain(Some(1), Some(3)), b"bc".to_vec());
    assert_eq!(s.as_slice(), b"adef");
    assert_eq!(s.drain(None, Some(1)), b"a".to_vec());
    assert_eq!(s.as_slice(), b"def");
    assert_eq!(s.drain(Some(2), None), b"f".to_vec());
    assert_eq!(s.as_slice(), b"de");
    assert_eq!(s.drain(Some(1), Some(1)), Vec::<u8>::new());
    assert_eq!(s.drain(None, None), b"de".to_vec());
    assert!(s.is_empty());
}

#[test]
fn byte_string_keeps_its_bytes_when_its_room_changes() {
    let mut s = ByteString::from_slice(b"abc");
    s.reserve(100);
    assert!(s.capacity() >= 103);
    assert_eq!(s.as_slice(), b"abc");
    s.reserve_exact(200);
    assert!(s.capacity() >= 203);
    assert_eq!(s.as_slice(), b"abc");
    s.shrink_to_fit();
    assert!(s.capacity() >= s.len());
    assert!(s.capacity() < 203);
    assert_eq!(s.as_slice(), b"abc");
    let boxed = s.clone().into_boxed_slice();
    assert_eq!(&*boxed, b"abc");
    assert_eq!(s.clone().into_vec(), b"abc".to_vec());
    assert_eq!(s.as_vec(), &b"abc".to_vec());
    s.as_mut_vec().push(b'd');
    assert_eq!(s.as_byte_str().as_slice(), b"abcd");
    assert!(s == ByteString::from_vec(b"abcd".to_vec()));
    assert!(s != ByteString::from(b"abc".to_vec()));
}

#[test]
fn byte_string_drops_what_is_not_wanted() {
    let mut s = ByteString::from_slice(b"a1b22c333");
    s.retain(|b| !b.is_ascii_digit());
    assert_eq!(s.as_slice(), b"abc");

    let mut s = ByteString::from_slice(b"aabbbcaa");
    s.dedup();
    assert_eq!(s.as_slice(), b"abca");

    let mut s = ByteString::from_slice(b"aAbBBbc");
    s.dedup_by_key(|b| b.to_ascii_lowercase());
    assert_eq!(s.as_slice(), b"abc");

    let mut s = ByteString::from_slice(&[1, 2, 4, 5, 9, 10, 11]);
    s.dedup_by(|current, kept| current == kept + 1);
    assert_eq!(s.as_slice(), &[1, 4, 9, 11]);

    let mut s = ByteString::new();
    s.dedup();
    s.dedup_by(|_, _| true);
    s.retain(|_| true);
    assert!(s.is_empty());
}

#[test]
fn bytes_are_rendered_quoted_and_escaped() {
    let v = ByteStr::from_slice(b"a\tb\r\n\\\"~ \x00\x1f\x7f\xff\xa5");
    assert_eq!(v.to_debug_string(), "b\"a\\tb\\r\\n\\\\\\\"~ \\x00\\x1f\\x7f\\xff\\xa5\"");
    assert_eq!(v.debug_bytes(), v.to_debug_string().into_bytes());
    assert_eq!(ByteStr::empty().to_debug_string(), "b\"\"");
    assert_eq!(ByteString::from_slice(b"hi").to_debug_string(), "b\"hi\"");
    assert_eq!(to_hex(0), b'0');
    assert_eq!(to_hex(9), b'9');
    assert_eq!(to_hex(10), b'a');
    assert_eq!(to_hex(15), b'f');
}
