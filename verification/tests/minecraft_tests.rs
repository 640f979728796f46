use rust_stubs::constants::{
    is_allowed_chat_character, read_acceptable_chars, FULLBRIGHT_LIGHTVALUE,
    ILLEGAL_FILE_CHARACTERS, NETWORK_PROTOCOL_VERSION, VERSION_STRING,
};
use rust_stubs::facing::{
    DOWN, EAST, NAMES, NORTH, OPPOSITE_FACING, SOUTH, STEP_X, STEP_Y, STEP_Z, UP, WEST,
};

#[test]
fn test_constants() {
    assert_eq!(VERSION_STRING, "1.6.4");
    assert_eq!(NETWORK_PROTOCOL_VERSION, 78);
    assert_eq!(FULLBRIGHT_LIGHTVALUE, 15728880);
    assert!(is_allowed_chat_character('a'));
}

#[test]
fn acceptable_chars_and_illegal_file_chars() {
    let chars = read_acceptable_chars();
    assert!(chars.starts_with(" !\"#$%&"));
    assert!(chars.contains('Ç'));
    assert!(chars.ends_with('ã'));
    assert_eq!(ILLEGAL_FILE_CHARACTERS.len(), 15);
    assert!(ILLEGAL_FILE_CHARACTERS.contains(&'/'));
    assert!(ILLEGAL_FILE_CHARACTERS.contains(&':'));
}

#[test]
fn test_facing() {
    assert_eq!(OPPOSITE_FACING[DOWN], UP);
    assert_eq!(OPPOSITE_FACING[UP], DOWN);
    assert_eq!(OPPOSITE_FACING[NORTH], SOUTH);
    assert_eq!(OPPOSITE_FACING[WEST], EAST);
    assert_eq!(STEP_Y[UP], 1);
    assert_eq!(STEP_Y[DOWN], -1);
    assert_eq!(STEP_X[WEST], -1);
    assert_eq!(STEP_X[EAST], 1);
}

#[test]
fn facing_laws_on_every_face() {
    for f in 0..6 {
        let o = OPPOSITE_FACING[f];
        assert_eq!(OPPOSITE_FACING[o], f);
        assert_ne!(o, f);
        assert_eq!(STEP_X[o], -STEP_X[f]);
        assert_eq!(STEP_Y[o], -STEP_Y[f]);
        assert_eq!(STEP_Z[o], -STEP_Z[f]);
        assert_eq!(STEP_X[f].abs() + STEP_Y[f].abs() + STEP_Z[f].abs(), 1);
    }
    assert_eq!(NAMES[NORTH], "NORTH");
}
