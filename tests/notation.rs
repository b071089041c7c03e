use jungle_chess::notation::{coord_to_position, parse_position, Prompt};

#[test]
fn cell_names() {
    assert_eq!(coord_to_position((0, 0)), "a1");
    assert_eq!(coord_to_position((6, 8)), "g9");
    assert_eq!(coord_to_position((2, 4)), "c5");
}

#[test]
fn reading_cells() {
    assert_eq!(parse_position(b"a1\n"), Prompt::Valid((0, 0)));
    assert_eq!(parse_position(b"g9"), Prompt::Valid((6, 8)));
    assert_eq!(parse_position(b"c5\n"), Prompt::Valid((2, 4)));
    assert_eq!(parse_position(b"q\n"), Prompt::Abort);
    assert_eq!(parse_position(b"h"), Prompt::Abort);
    assert_eq!(parse_position(b"z1\n"), Prompt::Invalid);
    assert_eq!(parse_position(b"ax\n"), Prompt::Invalid);
    assert_eq!(parse_position(b"a0\n"), Prompt::Invalid);
    assert_eq!(parse_position(b"a"), Prompt::Invalid);
    assert_eq!(parse_position(b""), Prompt::Invalid);
}

#[test]
fn names_read_back() {
    for y in 0..9isize {
        for x in 0..7isize {
            let name = coord_to_position((x, y));
            assert_eq!(parse_position(name.as_bytes()), Prompt::Valid((x, y)));
        }
    }
}
