use gbafix::{parse_token, ParseError, PatchOp};

#[test]
fn pad_token() {
    assert_eq!(parse_token("-p"), Ok(PatchOp::Pad));
    assert_eq!(parse_token("-pX"), Err(ParseError::UnknownArgument));
}

#[test]
fn short_title_is_zero_padded() {
    let mut expected = [0u8; 12];
    expected[0] = b'A';
    expected[1] = b'B';
    assert_eq!(parse_token("-tAB"), Ok(PatchOp::Title(Some(expected))));
}

#[test]
fn overlong_title_is_rejected() {
    assert_eq!(parse_token("-tThisIsThirteen"), Err(ParseError::TitleTooLong));
    assert_eq!(parse_token("-tABCDEFGHIJKLM"), Err(ParseError::TitleTooLong));
}

#[test]
fn twelve_byte_title_is_accepted() {
    assert_eq!(parse_token("-tABCDEFGHIJKL"), Ok(PatchOp::Title(Some(*b"ABCDEFGHIJKL"))));
}

#[test]
fn empty_title_defers_to_file_name() {
    assert_eq!(parse_token("-t"), Ok(PatchOp::Title(None)));
}

#[test]
fn game_code_tokens() {
    assert_eq!(parse_token("-cABCD"), Ok(PatchOp::GameCode(*b"ABCD")));
    assert_eq!(parse_token("-cAB"), Ok(PatchOp::GameCode([b'A', b'B', 0, 0])));
    assert_eq!(parse_token("-c"), Ok(PatchOp::GameCode([0, 0, 0, 0])));
    assert_eq!(parse_token("-cABCDE"), Err(ParseError::GameCodeTooLong));
}

#[test]
fn maker_code_tokens() {
    assert_eq!(parse_token("-m01"), Ok(PatchOp::MakerCode(*b"01")));
    assert_eq!(parse_token("-mX"), Ok(PatchOp::MakerCode([b'X', 0])));
    assert_eq!(parse_token("-m012"), Err(ParseError::MakerCodeTooLong));
}

#[test]
fn version_tokens() {
    assert_eq!(parse_token("-r0"), Ok(PatchOp::Version(0)));
    assert_eq!(parse_token("-r255"), Ok(PatchOp::Version(255)));
    assert_eq!(parse_token("-r007"), Ok(PatchOp::Version(7)));
    assert_eq!(parse_token("-r+7"), Ok(PatchOp::Version(7)));
    assert_eq!(parse_token("-r256"), Err(ParseError::InvalidVersion));
    assert_eq!(parse_token("-r1000"), Err(ParseError::InvalidVersion));
    assert_eq!(parse_token("-r"), Err(ParseError::InvalidVersion));
    assert_eq!(parse_token("-r+"), Err(ParseError::InvalidVersion));
    assert_eq!(parse_token("-r-1"), Err(ParseError::InvalidVersion));
    assert_eq!(parse_token("-r1x"), Err(ParseError::InvalidVersion));
}

#[test]
fn debug_tokens() {
    assert_eq!(parse_token("-d0"), Ok(PatchOp::Debug(false)));
    assert_eq!(parse_token("-d1"), Ok(PatchOp::Debug(true)));
    assert_eq!(parse_token("-d01"), Ok(PatchOp::Debug(true)));
    assert_eq!(parse_token("-d2"), Err(ParseError::InvalidDebugLevel));
    assert_eq!(parse_token("-d300"), Err(ParseError::InvalidDebugLevel));
    assert_eq!(parse_token("-d"), Err(ParseError::InvalidDebugLevel));
    assert_eq!(parse_token("-dx"), Err(ParseError::InvalidDebugLevel));
}

#[test]
fn unknown_token() {
    assert_eq!(parse_token("-q"), Err(ParseError::UnknownArgument));
    assert_eq!(parse_token("-"), Err(ParseError::UnknownArgument));
    assert_eq!(parse_token("game.gba"), Err(ParseError::UnknownArgument));
    assert_eq!(parse_token(""), Err(ParseError::UnknownArgument));
}

#[test]
fn error_messages() {
    assert_eq!(ParseError::TitleTooLong.message(), "title too long");
    assert_eq!(ParseError::GameCodeTooLong.message(), "game code too long");
    assert_eq!(ParseError::MakerCodeTooLong.message(), "maker code too long");
    assert_eq!(ParseError::InvalidVersion.message(), "invalid version");
    assert_eq!(ParseError::InvalidDebugLevel.message(), "debug level must be 0 or 1");
    assert_eq!(ParseError::UnknownArgument.message(), "unknown argument");
}

#[test]
fn title_length_counts_bytes() {
    let mut expected = [0u8; 12];
    expected[0] = 0xC3;
    expected[1] = 0xA9;
    assert_eq!(parse_token("-t\u{e9}"), Ok(PatchOp::Title(Some(expected))));
    assert_eq!(parse_token("-t\u{e9}\u{e9}\u{e9}\u{e9}\u{e9}\u{e9}\u{e9}"), Err(ParseError::TitleTooLong));
}
