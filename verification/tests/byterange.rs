use qhttp::util::byterange::{ByteRange, ByteRanges};

fn range(begin: Option<u64>, end: Option<u64>) -> ByteRange {
    ByteRange { begin, end }
}

fn ranges(text: &str) -> Result<Vec<ByteRange>, ()> {
    ByteRanges::from_str(text).map(|ranges| ranges.into_inner())
}

#[test]
fn byte_ranges_are_parsed() {
    assert_eq!(ranges("bytes=0-499"), Ok(vec![range(Some(0), Some(499))]));
    assert_eq!(ranges("bytes=500-"), Ok(vec![range(Some(500), None)]));
    assert_eq!(
        ranges("bytes=0-1,5-9"),
        Ok(vec![range(Some(0), Some(1)), range(Some(5), Some(9))])
    );
}

#[test]
fn broken_byte_ranges_are_refused() {
    assert_eq!(ranges("lines=0-1"), Err(()));
    assert_eq!(ranges("bytes=a-1"), Err(()));
    assert_eq!(ranges("bytes=9-1"), Err(()));
    assert_eq!(ranges("bytes=5"), Err(()));
    assert_eq!(ranges("bytes=-7"), Err(()));
    assert_eq!(ranges("bytes=0-1,"), Err(()));
    assert_eq!(ranges(""), Err(()));
}

#[test]
fn byte_ranges_are_converted() {
    let list = vec![range(Some(1), None)];
    let wrapped = ByteRanges::from(list.clone());
    let back: Vec<ByteRange> = Vec::from(wrapped);
    assert_eq!(back, list);
}

#[test]
fn byte_ranges_are_shown() {
    assert_eq!(range(Some(5), Some(10)).to_string(), "ByteRange(5-10)");
    assert_eq!(range(Some(5), None).to_string(), "ByteRange(5-)");
    assert_eq!(range(None, Some(10)).to_string(), "ByteRange(-10)");
}
