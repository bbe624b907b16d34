use byte_string::ByteStr;
use byte_string::ByteString;

fn owned(matches: &[(usize, ByteStr)]) -> Vec<(usize, Vec<u8>)> {
    matches.iter().map(|m| (m.0, m.1.to_vec())).collect()
}

#[test]
fn match_indices_point_at_their_matches_and_grow() {
    let cases: [(&[u8], &[u8]); 5] = [
        (b"XaaaaXaaaaX", b"aaa"),
        (b"aaaaaaa", b"aa"),
        (b"abcabcabc", b"bc"),
        (b"", b"a"),
        (b"zzz", b"a"),
    ];
    for (s, d) in cases {
        let matches = ByteStr::from_slice(s).match_indices(d).collect();
        let mut end_of_last = 0;
        for (k, (index, segment)) in matches.iter().enumerate() {
            assert_eq!(&s[*index..*index + segment.len()], segment.as_slice());
            assert_eq!(segment.as_slice(), d);
            if k > 0 {
                assert!(*index >= end_of_last);
            }
            end_of_last = *index + segment.len();
        }
    }
}

#[test]
fn match_indices_of_overlapping_occurrences_are_greedy() {
    let h = ByteStr::from_slice(b"aaaaaaa");
    assert_eq!(
        owned(&h.match_indices(b"aa").collect()),
        vec![(0, b"aa".to_vec()), (2, b"aa".to_vec()), (4, b"aa".to_vec())]
    );
    assert_eq!(
        owned(&h.rmatch_indices(b"aa").collect()),
        vec![(5, b"aa".to_vec()), (3, b"aa".to_vec()), (1, b"aa".to_vec())]
    );
}

#[test]
fn rmatch_indices_is_match_indices_reversed_where_occurrences_are_disjoint() {
    let cases: [(&[u8], &[u8]); 4] =
        [(b"aaaaXaaaaXaaaa", b"X"), (b"abcabcabc", b"bc"), (b"XX", b"X"), (b"", b"X")];
    for (s, d) in cases {
        let mut forward = owned(&ByteStr::from_slice(s).match_indices(d).collect());
        let backward = owned(&ByteStr::from_slice(s).rmatch_indices(d).collect());
        forward.reverse();
        assert_eq!(backward, forward);
    }
}

#[test]
fn matches_hand_out_the_needle_each_time() {
    let h = ByteStr::from_slice(b"abXXcdXXXef");
    let found: Vec<Vec<u8>> = h.matches(b"XX").collect().iter().map(|s| s.to_vec()).collect();
    assert_eq!(found, vec![b"XX".to_vec(), b"XX".to_vec()]);
    let found: Vec<Vec<u8>> = h.rmatches(b'X').collect().iter().map(|s| s.to_vec()).collect();
    assert_eq!(found.len(), 5);
    assert!(h.matches(b'q').collect().is_empty());
}

#[test]
fn match_indices_from_both_ends_keep_offsets_of_the_haystack() {
    let mut it = ByteStr::from_slice(b"aXbXcXd").match_indices(b'X');
    assert_eq!(it.next().map(|m| m.0), Some(1));
    assert_eq!(it.next_back().map(|m| m.0), Some(5));
    assert_eq!(it.next_back().map(|m| m.0), Some(3));
    assert!(it.next().is_none());
    assert!(it.next_back().is_none());

    let mut it = ByteStr::from_slice(b"aXbXcXd").rmatch_indices(b'X');
    assert_eq!(it.next().map(|m| m.0), Some(5));
    assert_eq!(it.next_back().map(|m| m.0), Some(1));
    assert_eq!(it.next().map(|m| m.0), Some(3));
    assert!(it.next().is_none());
}

#[test]
fn matches_mut_write_through_and_leave_the_rest() {
    let mut string = ByteString::from_slice(b"aXbXXc");
    {
        let mut it = string.as_mut_byte_str().matches_mut(b'X');
        while let Some(mut found) = it.next() {
            found.set(0, b'-');
        }
    }
    assert_eq!(string.as_slice(), b"a-b--c");
    {
        let mut it = string.as_mut_byte_str().rmatch_indices_mut(b"--");
        let (index, mut found) = it.next().unwrap();
        assert_eq!(index, 3);
        found.copy_from_slice(b"++");
        assert!(it.next().is_none());
    }
    assert_eq!(string.as_slice(), b"a-b++c");
    {
        let mut it = string.as_mut_byte_str().match_indices_mut(b'+');
        let (first, _) = it.next().unwrap();
        let (last, mut found) = it.next_back().unwrap();
        found.set(0, b'.');
        assert_eq!((first, last), (3, 4));
    }
    assert_eq!(string.as_slice(), b"a-b+.c");
    {
        let mut it = string.as_mut_byte_str().rmatches_mut(b'-');
        let mut found = it.next().unwrap();
        found.set(0, b'_');
        assert!(it.next().is_none());
    }
    assert_eq!(string.as_slice(), b"a_b+.c");
}
