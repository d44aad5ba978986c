use byteorder::read_full;

#[test]
fn read_full_assembles_chunks() {
    let mut buf = [0u8; 6];
    let mut filled = 0;
    for chunk in [&[1u8, 2][..], &[3u8][..], &[4u8, 5, 6][..]] {
        filled = read_full(&mut buf, filled, chunk);
    }
    assert_eq!(filled, 6);
    assert_eq!(buf, [1, 2, 3, 4, 5, 6]);
}

#[test]
fn read_full_keeps_surrounding_bytes() {
    let mut buf = [9u8; 5];
    let filled = read_full(&mut buf, 1, &[7, 8]);
    assert_eq!(filled, 3);
    assert_eq!(buf, [9, 7, 8, 9, 9]);
}

#[test]
fn read_full_accepts_empty_chunks() {
    let mut buf = [0u8; 2];
    let filled = read_full(&mut buf, 0, &[]);
    assert_eq!(filled, 0);
    assert_eq!(buf, [0, 0]);
}
