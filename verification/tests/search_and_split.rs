use byte_string::iterators::MatchIndicesMut;
use byte_string::iterators::RMatchIndicesMut;
use byte_string::iterators::RSplitMut;
use byte_string::iterators::RSplitNMut;
use byte_string::iterators::SplitMut;
use byte_string::iterators::SplitNMut;
use byte_string::ByteMatcher;
use byte_string::ByteStr;
use byte_string::ByteStrMut;
use byte_string::ByteString;
use byte_string::DoubleEndedSearcher;
use byte_string::ForwardSearcher;
use byte_string::ReverseSearcher;

fn shared<'a>(segments: &'a [ByteStrMut<'a>]) -> Vec<ByteStr<'a>> {
    segments.iter().map(|s| s.as_byte_str()).collect()
}

fn shared_matches<'a>(matches: &'a [(usize, ByteStrMut<'a>)]) -> Vec<(usize, ByteStr<'a>)> {
    matches.iter().map(|m| (m.0, m.1.as_byte_str())).collect()
}

fn drain_split<'a, M: ForwardSearcher>(mut it: SplitMut<'a, M>) -> Vec<ByteStrMut<'a>> {
    let mut out = Vec::new();
    while let Some(s) = it.next() {
        out.push(s);
    }
    out
}

fn drain_split_back<'a, M: DoubleEndedSearcher>(mut it: SplitMut<'a, M>) -> Vec<ByteStrMut<'a>> {
    let mut out = Vec::new();
    while let Some(s) = it.next_back() {
        out.push(s);
    }
    out
}

fn drain_rsplit<'a, M: ReverseSearcher>(mut it: RSplitMut<'a, M>) -> Vec<ByteStrMut<'a>> {
    let mut out = Vec::new();
    while let Some(s) = it.next() {
        out.push(s);
    }
    out
}

fn drain_rsplit_back<'a, M: DoubleEndedSearcher>(mut it: RSplitMut<'a, M>) -> Vec<ByteStrMut<'a>> {
    let mut out = Vec::new();
    while let Some(s) = it.next_back() {
        out.push(s);
    }
    out
}

fn drain_splitn<'a, M: ForwardSearcher>(mut it: SplitNMut<'a, M>) -> Vec<ByteStrMut<'a>> {
    let mut out = Vec::new();
    while let Some(s) = it.next() {
        out.push(s);
    }
    out
}

fn drain_rsplitn<'a, M: ReverseSearcher>(mut it: RSplitNMut<'a, M>) -> Vec<ByteStrMut<'a>> {
    let mut out = Vec::new();
    while let Some(s) = it.next() {
        out.push(s);
    }
    out
}

fn drain_match_indices<'a, M: ForwardSearcher>(
    mut it: MatchIndicesMut<'a, M>,
) -> Vec<(usize, ByteStrMut<'a>)> {
    let mut out = Vec::new();
    while let Some(m) = it.next() {
        out.push(m);
    }
    out
}

fn drain_match_indices_back<'a, M: DoubleEndedSearcher>(
    mut it: MatchIndicesMut<'a, M>,
) -> Vec<(usize, ByteStrMut<'a>)> {
    let mut out = Vec::new();
    while let Some(m) = it.next_back() {
        out.push(m);
    }
    out
}

fn drain_rmatch_indices<'a, M: ReverseSearcher>(
    mut it: RMatchIndicesMut<'a, M>,
) -> Vec<(usize, ByteStrMut<'a>)> {
    let mut out = Vec::new();
    while let Some(m) = it.next() {
        out.push(m);
    }
    out
}

fn drain_rmatch_indices_back<'a, M: DoubleEndedSearcher>(
    mut it: RMatchIndicesMut<'a, M>,
) -> Vec<(usize, ByteStrMut<'a>)> {
    let mut out = Vec::new();
    while let Some(m) = it.next_back() {
        out.push(m);
    }
    out
}

#[test]
fn find_test_1() {
    let string = ByteStr::from_slice(b"0123456789 0123456789");
    assert_eq!(string.find(b"345"), Some(3));
    assert_eq!(string.rfind(b"345"), Some(17));
}

#[test]
fn find_test_2() {
    let string = ByteStr::from_slice(b"0123456789 0123456789");
    assert_eq!(string.find(b'5'), Some(5));
    assert_eq!(string.rfind(b'5'), Some(17));
}

#[test]
fn split_test_1() {
    let mut string = ByteString::from_slice(b"aaaabaaaabaaaa");
    let expected = [
        ByteStr::empty(),
        ByteStr::from_slice(b"ab"),
        ByteStr::from_slice(b"ab"),
        ByteStr::from_slice(b"a"),
    ];

    assert_eq!(string.as_byte_str().split(b"aaa").collect(), expected);
    let got = drain_split(string.as_mut_byte_str().split_mut(b"aaa"));
    assert_eq!(shared(&got), expected);
}

#[test]
fn split_test_2() {
    let mut string = ByteString::from_slice(b"aaaabaaaabaaaa");
    let expected = [
        ByteStr::empty(),
        ByteStr::from_slice(b"ba"),
        ByteStr::from_slice(b"ba"),
        ByteStr::from_slice(b"a"),
    ];

    assert_eq!(string.as_byte_str().rsplit(b"aaa").collect(), expected);
    let got = drain_rsplit(string.as_mut_byte_str().rsplit_mut(b"aaa"));
    assert_eq!(shared(&got), expected);
}

#[test]
fn split_test_3() {
    let mut string = ByteString::from_slice(b"aaaaXbbbbXcccc");
    let expected = [
        ByteStr::from_slice(b"aaaa"),
        ByteStr::from_slice(b"bbbb"),
        ByteStr::from_slice(b"cccc"),
    ];

    assert_eq!(string.as_byte_str().split(b'X').collect(), expected);
    let got = drain_split(string.as_mut_byte_str().split_mut(b'X'));
    assert_eq!(shared(&got), expected);

    let mut back = Vec::new();
    let mut it = string.as_byte_str().rsplit(b'X');
    while let Some(s) = it.next_back() {
        back.push(s);
    }
    assert_eq!(back, expected);
    let got = drain_rsplit_back(string.as_mut_byte_str().rsplit_mut(b'X'));
    assert_eq!(shared(&got), expected);
}

#[test]
fn split_test_4() {
    let mut string = ByteString::from_slice(b"aaaaXbbbbXcccc");
    let expected = [
        ByteStr::from_slice(b"cccc"),
        ByteStr::from_slice(b"bbbb"),
        ByteStr::from_slice(b"aaaa"),
    ];

    assert_eq!(string.as_byte_str().rsplit(b'X').collect(), expected);
    let got = drain_rsplit(string.as_mut_byte_str().rsplit_mut(b'X'));
    assert_eq!(shared(&got), expected);

    let mut back = Vec::new();
    let mut it = string.as_byte_str().split(b'X');
    while let Some(s) = it.next_back() {
        back.push(s);
    }
    assert_eq!(back, expected);
    let got = drain_split_back(string.as_mut_byte_str().split_mut(b'X'));
    assert_eq!(shared(&got), expected);
}

#[test]
fn split_test_5() {
    let mut string = ByteString::from_slice(b"aaaaXbbbbXcccc");
    let expected = [ByteStr::from_slice(b"aaaa"), ByteStr::from_slice(b"bbbbXcccc")];

    assert_eq!(string.as_byte_str().splitn(2, b'X').collect(), expected);
    let got = drain_splitn(string.as_mut_byte_str().splitn_mut(2, b'X'));
    assert_eq!(shared(&got), expected);
}

#[test]
fn split_test_6() {
    let mut string = ByteString::from_slice(b"aaaaXbbbbXcccc");
    let expected = [ByteStr::from_slice(b"cccc"), ByteStr::from_slice(b"aaaaXbbbb")];

    assert_eq!(string.as_byte_str().rsplitn(2, b'X').collect(), expected);
    let got = drain_rsplitn(string.as_mut_byte_str().rsplitn_mut(2, b'X'));
    assert_eq!(shared(&got), expected);
}

#[test]
fn match_test_1() {
    let mut string = ByteString::from_slice(b"XaaaaXaaaaX");
    let expected = [(1, ByteStr::from_slice(b"aaa")), (6, ByteStr::from_slice(b"aaa"))];

    assert_eq!(string.as_byte_str().match_indices(b"aaa").collect(), expected);
    let got = drain_match_indices(string.as_mut_byte_str().match_indices_mut(b"aaa"));
    assert_eq!(shared_matches(&got), expected);
}

#[test]
fn match_test_2() {
    let mut string = ByteString::from_slice(b"XaaaaXaaaaX");
    let expected = [(7, ByteStr::from_slice(b"aaa")), (2, ByteStr::from_slice(b"aaa"))];

    assert_eq!(string.as_byte_str().rmatch_indices(b"aaa").collect(), expected);
    let got = drain_rmatch_indices(string.as_mut_byte_str().rmatch_indices_mut(b"aaa"));
    assert_eq!(shared_matches(&got), expected);
}

#[test]
fn match_test_3() {
    let mut string = ByteString::from_slice(b"aaaaXaaaaXaaaa");
    let expected = [(4, ByteStr::from_slice(b"X")), (9, ByteStr::from_slice(b"X"))];

    assert_eq!(string.as_byte_str().match_indices(b'X').collect(), expected);
    let got = drain_match_indices(string.as_mut_byte_str().match_indices_mut(b'X'));
    assert_eq!(shared_matches(&got), expected);

    let mut back = Vec::new();
    let mut it = string.as_byte_str().rmatch_indices(b'X');
    while let Some(m) = it.next_back() {
        back.push(m);
    }
    assert_eq!(back, expected);
    let got = drain_rmatch_indices_back(string.as_mut_byte_str().rmatch_indices_mut(b'X'));
    assert_eq!(shared_matches(&got), expected);
}

#[test]
fn match_test_4() {
    let mut string = ByteString::from_slice(b"aaaaXaaaaXaaaa");
    let expected = [(9, ByteStr::from_slice(b"X")), (4, ByteStr::from_slice(b"X"))];

    assert_eq!(string.as_byte_str().rmatch_indices(b'X').collect(), expected);
    let got = drain_rmatch_indices(string.as_mut_byte_str().rmatch_indices_mut(b'X'));
    assert_eq!(shared_matches(&got), expected);

    let mut back = Vec::new();
    let mut it = string.as_byte_str().match_indices(b'X');
    while let Some(m) = it.next_back() {
        back.push(m);
    }
    assert_eq!(back, expected);
    let got = drain_match_indices_back(string.as_mut_byte_str().match_indices_mut(b'X'));
    assert_eq!(shared_matches(&got), expected);
}

#[test]
fn byte_matcher_finds_both_ends() {
    let m = ByteMatcher::new(b'a');
    let h = ByteStr::from_slice(b"xxaxxax");
    assert_eq!(m.find(&h), Some((2, 3)));
    assert_eq!(m.rfind(&h), Some((5, 6)));
    assert_eq!(m.find(&ByteStr::from_slice(b"xyz")), None);
    assert_eq!(m.rfind(&ByteStr::empty()), None);
}
