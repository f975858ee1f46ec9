use dbishop::{decode, fingerprint, Error, Field, FromHexError, Pos};

#[test]
fn test_pos_add() {
    let mut a = Pos(1, 2);
    let b = Pos(2, 3);
    assert_eq!(a + b, Pos(3, 5));
    a.add_assign(b);
    assert_eq!(a, Pos(3, 5));
}

#[test]
fn test_field_init() {
    let f = Field::new(17, 9);
    assert_eq!(f.move_pnt, Pos(8, 4));
}

#[test]
fn test_field_index_and_pos() {
    let f = Field::new(17, 9);
    assert_eq!(f.pos_to_index(Pos(4, 7)), 123);
    assert_eq!(f.index_to_pos(123), Pos(4, 7));
}

#[test]
fn test_field_move() {
    let mut f = Field::new(17, 9);
    f.move_pnt = Pos(2, 2);

    // LU, LD
    f.pnt_move(8);
    assert_eq!(f.move_pnt, Pos(0, 2));
    assert_eq!(f.get_cnt(Pos(1, 1)), 1);
    assert_eq!(f.get_cnt(Pos(0, 2)), 1);

    // LU, LU
    f.pnt_move(0);
    assert_eq!(f.move_pnt, Pos(0, 0));
    assert_eq!(f.get_cnt(Pos(0, 1)), 1);
    assert_eq!(f.get_cnt(Pos(0, 0)), 1);
}

#[test]
fn test_fingerprint_deterministic() {
    let bytes = vec![0u8, 7, 42, 255, 13, 99];
    let a = fingerprint(bytes.clone());
    let b = fingerprint(bytes);
    assert_eq!(a, b);
    let c = fingerprint(Vec::new());
    let d = fingerprint(Vec::new());
    assert_eq!(c, d);
}

#[test]
fn test_clamp_corners() {
    let f = Field::new(17, 9);
    // an up-left delta from the top-left corner stays put on both axes
    assert_eq!(f.limit(Pos(0 - 1, 0 - 1)), Pos(0, 0));
    // a down-right delta from the bottom-right corner stays put too
    assert_eq!(f.limit(Pos(16 + 1, 8 + 1)), Pos(16, 8));
    // an interior position is untouched
    assert_eq!(f.limit(Pos(5, 3)), Pos(5, 3));
}

#[test]
fn test_clamp_walk_sticks_at_corner() {
    let mut f = Field::new(17, 9);
    f.move_pnt = Pos(0, 0);
    // both groups of 0b0000 are up-left: the cursor sticks at (0, 0)
    f.pnt_move(0);
    assert_eq!(f.move_pnt, Pos(0, 0));
    assert_eq!(f.get_cnt(Pos(0, 0)), 2);

    let mut g = Field::new(17, 9);
    g.move_pnt = Pos(16, 8);
    // both groups of 0b1111 are down-right: the cursor sticks at (16, 8)
    g.pnt_move(0b1111);
    assert_eq!(g.move_pnt, Pos(16, 8));
    assert_eq!(g.get_cnt(Pos(16, 8)), 2);
}

#[test]
fn test_output_shape() {
    let fp = fingerprint(vec![1, 2, 3, 4, 5]);
    let lines: Vec<&str> = fp.lines().collect();
    assert_eq!(lines.len(), 11);
    for line in &lines {
        assert_eq!(line.len(), 19);
    }
    assert!(lines[0].chars().all(|c| c == '+' || c == '-'));
    assert!(lines[10].chars().all(|c| c == '+' || c == '-'));
    assert_eq!(lines[0], "+-----------------+");
    assert_eq!(lines[10], "+-----------------+");
}

#[test]
fn test_sentinel_override() {
    // a walk that ends away from the centre shows one S and one E
    let fp = fingerprint(vec![0u8]);
    assert_eq!(fp.chars().filter(|&c| c == 'S').count(), 1);
    assert_eq!(fp.chars().filter(|&c| c == 'E').count(), 1);
    // the start cell is the centre, row 4 column 8 of the interior
    let lines: Vec<&str> = fp.lines().collect();
    assert_eq!(lines[5].as_bytes()[9], b'S');
}

#[test]
fn test_sentinel_end_wins_when_walk_returns() {
    // 0b1100: up-left then down-right, back to the centre; the end marker
    // overwrites the start marker there
    let fp = fingerprint(vec![12u8]);
    assert_eq!(fp.chars().filter(|&c| c == 'S').count(), 0);
    assert_eq!(fp.chars().filter(|&c| c == 'E').count(), 1);
    let lines: Vec<&str> = fp.lines().collect();
    assert_eq!(lines[5].as_bytes()[9], b'E');
}

#[test]
fn test_empty_input() {
    let expected = "+-----------------+\n\
                    |                 |\n\
                    |                 |\n\
                    |                 |\n\
                    |                 |\n\
                    |        E        |\n\
                    |                 |\n\
                    |                 |\n\
                    |                 |\n\
                    |                 |\n\
                    +-----------------+\n";
    assert_eq!(fingerprint(Vec::new()), expected);
}

#[test]
fn test_known_vector() {
    let decoded = decode(String::from("0123456789abcdefABCDEF")).unwrap();
    let expected_values: Vec<u8> = vec![
        0, 1, 2, 3, 4, 5, 6, 7, 8, 9, 10, 11, 12, 13, 14, 15, 10, 11, 12, 13, 14, 15,
    ];
    assert_eq!(decoded, expected_values);
    let expected = "+-----------------+\n\
                    |   .+.+o.        |\n\
                    |     +oo         |\n\
                    |     ..          |\n\
                    |    .  .         |\n\
                    |   . o  S        |\n\
                    |    o .          |\n\
                    |     .           |\n\
                    |     ...         |\n\
                    |      +=+.E      |\n\
                    +-----------------+\n";
    assert_eq!(fingerprint(decoded), expected);
}

#[test]
fn test_decode_rejects_invalid_characters() {
    assert_eq!(
        decode(String::from("g")),
        Err(FromHexError::InvalidHexCharacter { c: 'g', index: 0 })
    );
    assert_eq!(
        decode(String::from("G")),
        Err(FromHexError::InvalidHexCharacter { c: 'G', index: 0 })
    );
    // the first offender is the one reported
    assert_eq!(
        decode(String::from("0a!f?")),
        Err(FromHexError::InvalidHexCharacter { c: '!', index: 2 })
    );
    assert_eq!(decode(String::new()), Ok(Vec::new()));
}

#[test]
fn test_hex_error_message() {
    let e = FromHexError::InvalidHexCharacter { c: 'g', index: 3 };
    assert_eq!(e.message(), "Invalid character 'g' at position 3");
}

#[test]
fn test_error_messages() {
    assert_eq!(Error::EmptyInput.message(), "Input is empty");
    assert_eq!(
        Error::InputAndFileConflict.message(),
        "Input hex string and given file have a conflicte"
    );
    assert_eq!(Error::IOError(String::from("broken pipe")).message(), "broken pipe");
    let e = Error::HexError(FromHexError::InvalidHexCharacter { c: 'z', index: 0 });
    assert_eq!(e.message(), "Invalid character 'z' at position 0");
}
