use psf2::{ColumnIter, RowIter};

fn columns(mut it: ColumnIter) -> Vec<bool> {
    let mut out = Vec::new();
    while let Some(b) = it.next() {
        out.push(b);
    }
    out
}

fn columns_rev(mut it: ColumnIter) -> Vec<bool> {
    let mut out = Vec::new();
    while let Some(b) = it.next_back() {
        out.push(b);
    }
    out
}

fn flatten(mut it: RowIter) -> Vec<bool> {
    let mut out = Vec::new();
    while let Some(row) = it.next() {
        out.extend(columns(row));
    }
    out
}

#[test]
fn column_correctness() {
    let data: &[u8] = &[3, 0];
    let it = ColumnIter::new(data, 9);
    assert_eq!(it.len(), 9);
    assert_eq!(
        columns(it),
        &[false, false, false, false, false, false, true, true, false]
    );
}

#[test]
fn reverse_column() {
    let data: &[u8] = &[3, 0];
    let it = ColumnIter::new(data, 9);
    let mut naive = columns(it.clone());
    naive.reverse();
    assert_eq!(naive, columns_rev(it));
}

#[test]
fn row_correctness() {
    let data: &[u8] = &[128, 0];
    let it = RowIter::new(data, 1);
    assert_eq!(it.len(), 2);
    assert_eq!(flatten(it), &[true, false]);
}

#[test]
fn reverse_row() {
    let data: &[u8] = &[128, 0];
    let it = RowIter::new(data, 1);
    let mut naive = flatten(it.clone());
    naive.reverse();
    let mut back = it;
    let mut reversed = Vec::new();
    while let Some(row) = back.next_back() {
        reversed.extend(columns(row));
    }
    assert_eq!(naive, reversed);
}

#[test]
fn column_mixed_ends_meet() {
    let data: &[u8] = &[0b1011_0000];
    let mut it = ColumnIter::new(data, 4);
    assert_eq!(it.next(), Some(true));
    assert_eq!(it.next_back(), Some(true));
    assert_eq!(it.len(), 2);
    assert_eq!(it.next_back(), Some(true));
    assert_eq!(it.next(), Some(false));
    assert_eq!(it.len(), 0);
    assert_eq!(it.next(), None);
    assert_eq!(it.next_back(), None);
}

#[test]
fn column_padding_never_yielded() {
    let data: &[u8] = &[0xFF];
    let it = ColumnIter::new(data, 3);
    assert_eq!(columns(it), &[true, true, true]);
    assert_eq!(ColumnIter::new(data, 3).data(), &[0xFF]);
}

#[test]
fn row_len_counts_padded_rows() {
    let data: Vec<u8> = (0u8..12).collect();
    let it = RowIter::new(&data, 6);
    assert_eq!(it.len(), 12);
    let mut count = 0;
    let mut it2 = it.clone();
    while let Some(row) = it2.next() {
        assert_eq!(row.len(), 6);
        count += 1;
    }
    assert_eq!(count, 12);
    assert!(it2.data().is_empty());
}

#[test]
fn row_two_byte_rows() {
    let data: &[u8] = &[0x80, 0x80, 0x00, 0x00, 0xFF, 0x80];
    let mut it = RowIter::new(data, 9);
    assert_eq!(it.len(), 3);
    let first = it.next().unwrap();
    assert_eq!(first.data(), &[0x80, 0x80]);
    assert_eq!(
        columns(first),
        &[true, false, false, false, false, false, false, false, true]
    );
    let last = it.next_back().unwrap();
    assert_eq!(columns(last), &[true; 9]);
    assert_eq!(it.len(), 1);
    assert_eq!(it.data(), &[0x00, 0x00]);
}

#[test]
fn full_reverse_is_reverse_of_forward() {
    let data: &[u8] = &[0b1100_0000, 0b0010_0000, 0b1000_0100];
    let it = RowIter::new(data, 6);
    let mut forward = flatten(it.clone());
    forward.reverse();
    let mut back = it;
    let mut backward = Vec::new();
    while let Some(row) = back.next_back() {
        backward.extend(columns_rev(row));
    }
    assert_eq!(forward, backward);
}

#[test]
fn row_short_tail_ends_iteration() {
    let data: &[u8] = &[1, 2, 3];
    let mut it = RowIter::new(data, 16);
    assert_eq!(it.len(), 1);
    assert!(it.next().is_some());
    assert!(it.next().is_none());
    assert_eq!(it.data(), &[3]);
}
