use byte_string::ByteStr;
use byte_string::ByteString;
use byte_string::StrMatcher;
use byte_string::ByteMatcher;
use byte_string::ForwardSearcher;
use byte_string::FullMatcher;
use byte_string::IntoMatcher;
use byte_string::PrefixMatcher;
use byte_string::ReverseSearcher;
use byte_string::SufixMatcher;

fn owned(segments: &[ByteStr]) -> Vec<Vec<u8>> {
    segments.iter().map(|s| s.to_vec()).collect()
}

fn joined(segments: &[ByteStr], needle: &[u8]) -> Vec<u8> {
    let mut out = Vec::new();
    for (i, s) in segments.iter().enumerate() {
        if i > 0 {
            out.extend_from_slice(needle);
        }
        out.extend_from_slice(s.as_slice());
    }
    out
}

#[test]
fn split_and_join_give_the_haystack_back() {
    let cases: [(&[u8], &[u8]); 6] = [
        (b"aaaabaaaabaaaa", b"aaa"),
        (b"", b"x"),
        (b"x", b"x"),
        (b"xx", b"x"),
        (b"no needle here", b"zz"),
        (b"--a--b--", b"--"),
    ];
    for (s, d) in cases {
        let segments = ByteStr::from_slice(s).split(d).collect();
        assert_eq!(joined(&segments, d), s.to_vec());
    }
}

#[test]
fn split_of_an_empty_haystack_is_one_empty_segment() {
    let segments = ByteStr::empty().split(b'x').collect();
    assert_eq!(owned(&segments), vec![Vec::<u8>::new()]);
    let segments = ByteStr::empty().rsplit(b'x').collect();
    assert_eq!(owned(&segments), vec![Vec::<u8>::new()]);
}

#[test]
fn split_at_both_borders_gives_empty_segments() {
    let segments = ByteStr::from_slice(b"XaXbX").split(b'X').collect();
    assert_eq!(owned(&segments), vec![b"".to_vec(), b"a".to_vec(), b"b".to_vec(), b"".to_vec()]);
}

#[test]
fn rsplit_is_split_reversed_where_occurrences_are_disjoint() {
    let cases: [(&[u8], &[u8]); 4] =
        [(b"aaaaXbbbbXcccc", b"X"), (b"a, b, c", b", "), (b"abcabc", b"abc"), (b"", b"q")];
    for (s, d) in cases {
        let mut forward = owned(&ByteStr::from_slice(s).split(d).collect());
        let backward = owned(&ByteStr::from_slice(s).rsplit(d).collect());
        forward.reverse();
        assert_eq!(backward, forward);
    }
}

#[test]
fn rsplit_differs_from_split_reversed_where_occurrences_overlap() {
    let s = ByteStr::from_slice(b"aaaabaaaabaaaa");
    let mut forward = owned(&s.split(b"aaa").collect());
    let backward = owned(&s.rsplit(b"aaa").collect());
    forward.reverse();
    assert_eq!(forward, vec![b"a".to_vec(), b"ab".to_vec(), b"ab".to_vec(), b"".to_vec()]);
    assert_eq!(backward, vec![b"".to_vec(), b"ba".to_vec(), b"ba".to_vec(), b"a".to_vec()]);
}

#[test]
fn splitn_hands_out_at_most_n_and_keeps_every_byte() {
    let s: &[u8] = b"aXbXcXd";
    let h = ByteStr::from_slice(s);
    assert_eq!(owned(&h.splitn(0, b'X').collect()), Vec::<Vec<u8>>::new());
    assert_eq!(owned(&h.splitn(1, b'X').collect()), vec![b"aXbXcXd".to_vec()]);
    assert_eq!(owned(&h.splitn(3, b'X').collect()), vec![b"a".to_vec(), b"b".to_vec(), b"cXd".to_vec()]);
    assert_eq!(
        owned(&h.splitn(4, b'X').collect()),
        vec![b"a".to_vec(), b"b".to_vec(), b"c".to_vec(), b"d".to_vec()]
    );
    for n in 1..8 {
        let segments = h.splitn(n, b'X').collect();
        assert!(segments.len() <= n);
        assert_eq!(joined(&segments, b"X"), s.to_vec());
    }
}

#[test]
fn splitn_with_room_to_spare_stops_with_the_last_segment() {
    let h = ByteStr::from_slice(b"aXb");
    assert_eq!(owned(&h.splitn(3, b'X').collect()), vec![b"a".to_vec(), b"b".to_vec()]);
    assert_eq!(owned(&h.splitn(9, b'X').collect()), vec![b"a".to_vec(), b"b".to_vec()]);
    assert_eq!(owned(&h.rsplitn(3, b'X').collect()), vec![b"b".to_vec(), b"a".to_vec()]);

    let mut it = h.splitn(3, b'X');
    assert_eq!(it.next().map(|s| s.to_vec()), Some(b"a".to_vec()));
    assert_eq!(it.next().map(|s| s.to_vec()), Some(b"b".to_vec()));
    assert!(it.next().is_none());
    assert!(it.next().is_none());
}

#[test]
fn rsplitn_absorbs_the_front() {
    let h = ByteStr::from_slice(b"aXbXcXd");
    assert_eq!(owned(&h.rsplitn(0, b'X').collect()), Vec::<Vec<u8>>::new());
    assert_eq!(owned(&h.rsplitn(1, b'X').collect()), vec![b"aXbXcXd".to_vec()]);
    assert_eq!(owned(&h.rsplitn(3, b'X').collect()), vec![b"d".to_vec(), b"c".to_vec(), b"aXb".to_vec()]);
}

#[test]
fn splitn_with_an_empty_needle_hands_out_empty_segments_and_the_rest() {
    let h = ByteStr::from_slice(b"abc");
    let empty: &[u8] = b"";
    assert_eq!(
        owned(&h.splitn(3, empty).collect()),
        vec![b"".to_vec(), b"".to_vec(), b"abc".to_vec()]
    );
}

#[test]
fn a_finished_split_stays_finished() {
    let mut it = ByteStr::from_slice(b"ab").split(b'X');
    assert_eq!(it.next().map(|s| s.to_vec()), Some(b"ab".to_vec()));
    assert!(it.next().is_none());
    assert!(it.next().is_none());
    assert!(it.next_back().is_none());
}

#[test]
fn split_from_both_ends_never_hands_out_a_byte_twice() {
    let mut it = ByteStr::from_slice(b"aXbXcXd").split(b'X');
    assert_eq!(it.next().map(|s| s.to_vec()), Some(b"a".to_vec()));
    assert_eq!(it.next_back().map(|s| s.to_vec()), Some(b"d".to_vec()));
    assert_eq!(it.next().map(|s| s.to_vec()), Some(b"b".to_vec()));
    assert_eq!(it.next_back().map(|s| s.to_vec()), Some(b"c".to_vec()));
    assert!(it.next().is_none());
    assert!(it.next_back().is_none());
}

#[test]
fn split_mut_segments_write_through_and_leave_separators() {
    let mut string = ByteString::from_slice(b"abXcdXef");
    {
        let mut it = string.as_mut_byte_str().split_mut(b'X');
        while let Some(mut segment) = it.next() {
            segment.reverse();
        }
    }
    assert_eq!(string.as_slice(), b"baXdcXfe");
    {
        let mut it = string.as_mut_byte_str().rsplit_mut(b'X');
        let mut last = it.next().unwrap();
        last.set(0, b'!');
    }
    assert_eq!(string.as_slice(), b"baXdcX!e");
}

#[test]
fn splitn_mut_last_segment_covers_the_rest() {
    let mut string = ByteString::from_slice(b"aXbXc");
    {
        let mut it = string.as_mut_byte_str().splitn_mut(2, b'X');
        let first = it.next().unwrap();
        assert_eq!(first.as_byte_str().to_vec(), b"a".to_vec());
        let mut rest = it.next().unwrap();
        assert_eq!(rest.as_byte_str().to_vec(), b"bXc".to_vec());
        rest.set(1, b'-');
        assert!(it.next().is_none());
    }
    assert_eq!(string.as_slice(), b"aXb-c");
}

#[test]
fn str_matcher_capabilities() {
    let m = StrMatcher::new(ByteStr::from_slice(b"ab"));
    assert!(m.is_prefix_of(&ByteStr::from_slice(b"abc")));
    assert!(!m.is_prefix_of(&ByteStr::from_slice(b"a")));
    assert!(!m.is_prefix_of(&ByteStr::from_slice(b"ba")));
    assert!(m.is_sufix_of(&ByteStr::from_slice(b"cab")));
    assert!(!m.is_sufix_of(&ByteStr::from_slice(b"b")));
    assert!(m.matches(&ByteStr::from_slice(b"ab")));
    assert!(!m.matches(&ByteStr::from_slice(b"abc")));
    assert_eq!(m.find(&ByteStr::from_slice(b"xxabab")), Some((2, 4)));
    assert_eq!(m.rfind(&ByteStr::from_slice(b"xxabab")), Some((4, 6)));
    assert_eq!(m.find(&ByteStr::from_slice(b"a")), None);
    assert_eq!(m.rfind(&ByteStr::from_slice(b"ba")), None);
}

#[test]
fn byte_matcher_capabilities() {
    let m = ByteMatcher::new(b'a');
    assert!(m.is_prefix_of(&ByteStr::from_slice(b"ab")));
    assert!(!m.is_prefix_of(&ByteStr::empty()));
    assert!(m.is_sufix_of(&ByteStr::from_slice(b"ba")));
    assert!(!m.is_sufix_of(&ByteStr::from_slice(b"ab")));
    assert!(m.matches(&ByteStr::from_slice(b"a")));
    assert!(!m.matches(&ByteStr::from_slice(b"aa")));
    assert!(!m.matches(&ByteStr::empty()));
}

#[test]
fn an_empty_needle_lies_at_every_offset() {
    let m = StrMatcher::new(ByteStr::empty());
    let h = ByteStr::from_slice(b"abc");
    assert_eq!(m.find(&h), Some((0, 0)));
    assert_eq!(m.rfind(&h), Some((3, 3)));
    assert_eq!(m.find(&ByteStr::empty()), Some((0, 0)));
    assert!(m.is_prefix_of(&h));
    assert!(m.is_sufix_of(&h));
    assert!(!m.matches(&h));
    assert!(m.matches(&ByteStr::empty()));
}

#[test]
fn into_matcher_takes_bytes_in_every_shape() {
    let h = ByteStr::from_slice(b"0123456789");
    let slice: &[u8] = b"45";
    let vec = b"45".to_vec();
    let string = ByteString::from_slice(b"45");
    assert_eq!(h.find(slice), Some(4));
    assert_eq!(h.find(b"45"), Some(4));
    assert_eq!(h.find(&vec), Some(4));
    assert_eq!(h.find(&string), Some(4));
    assert_eq!(h.find(ByteStr::from_slice(b"45")), Some(4));
    assert_eq!(h.find(b'4'), Some(4));
    assert_eq!(b'4'.into_matcher().find(&h), Some((4, 5)));
}

#[test]
fn contains_starts_with_ends_with() {
    let h = ByteStr::from_slice(b"hello world");
    assert!(h.contains(b"lo w"));
    assert!(!h.contains(b"low"));
    assert!(h.contains(b'w'));
    assert!(h.starts_with(b"hello"));
    assert!(!h.starts_with(b"world"));
    assert!(h.starts_with(b'h'));
    assert!(h.ends_with(b"world"));
    assert!(!h.ends_with(b"hello"));
    assert!(h.ends_with(b'd'));
    assert_eq!(h.find(b"zz"), None);
    assert_eq!(h.rfind(b'z'), None);
    assert_eq!(h.rfind(b"o"), Some(8));
}
