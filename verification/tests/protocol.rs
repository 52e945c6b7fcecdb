use fastboot_client::protocol::bytes_slice_null;
use fastboot_client::protocol::parse_u32_hex;
use fastboot_client::protocol::parse_u64_hex;
use fastboot_client::protocol::FastBootCommand;
use fastboot_client::protocol::FastBootResponse;
use fastboot_client::protocol::FastBootResponseParseError;

#[test]
fn parse_valid_u32_hex() {
    let hex = parse_u32_hex("0x123456").unwrap();
    assert_eq!(0x123456, hex);

    let hex = parse_u32_hex("0x0012abcd").unwrap();
    assert_eq!(0x12abcd, hex);
}

#[test]
fn parse_valid_u64_hex() {
    let hex = parse_u64_hex("0x123456").unwrap();
    assert_eq!(0x123456, hex);

    let hex = parse_u64_hex("0x0012abcd").unwrap();
    assert_eq!(0x12abcd, hex);

    let hex = parse_u64_hex("0x0000000134b72400").unwrap();
    assert_eq!(0x134b72400, hex);
}

#[test]
fn parse_invalid_u32_hex() {
    parse_u32_hex("123456").unwrap_err();
}

#[test]
fn response_parse_ok() {
    let r = FastBootResponse::from_bytes(b"OKAYtest").unwrap();
    assert_eq!(r, FastBootResponse::Okay("test".to_string()));
}

#[test]
fn response_parse_ok_with_null() {
    let r = FastBootResponse::from_bytes(b"OKAYtest\0foo").unwrap();
    assert_eq!(r, FastBootResponse::Okay("test".to_string()));
}

#[test]
fn response_parse_fail() {
    let r = FastBootResponse::from_bytes(b"FAILtest").unwrap();
    assert_eq!(r, FastBootResponse::Fail("test".to_string()));
}

#[test]
fn response_parse_fail_with_null() {
    let r = FastBootResponse::from_bytes(b"FAILtest\0foo").unwrap();
    assert_eq!(r, FastBootResponse::Fail("test".to_string()));
}

#[test]
fn response_parse_info() {
    let r = FastBootResponse::from_bytes(b"INFOtest").unwrap();
    assert_eq!(r, FastBootResponse::Info("test".to_string()));
}

#[test]
fn response_parse_info_with_null() {
    let r = FastBootResponse::from_bytes(b"INFOtest\0foo").unwrap();
    assert_eq!(r, FastBootResponse::Info("test".to_string()));
}

#[test]
fn response_parse_data() {
    let r = FastBootResponse::from_bytes(b"DATA00123456").unwrap();
    assert_eq!(r, FastBootResponse::Data(0x123456));
}

#[test]
fn response_parse_data_with_null() {
    let r = FastBootResponse::from_bytes(b"DATA00123456\0foo").unwrap();
    assert_eq!(r, FastBootResponse::Data(0x123456));
}

#[test]
fn response_parse_invalid() {
    let e = FastBootResponse::from_bytes(b"UNKN").unwrap_err();
    assert_eq!(e, FastBootResponseParseError::UnknownReply);
}

#[test]
fn response_parse_too_short() {
    let e = FastBootResponse::from_bytes(b"UN").unwrap_err();
    assert_eq!(e, FastBootResponseParseError::UnknownReply);
}

#[test]
fn response_parse_data_bad_hex() {
    let e = FastBootResponse::from_bytes(b"DATAzzzz").unwrap_err();
    assert_eq!(e, FastBootResponseParseError::DataLength);
}

#[test]
fn response_parse_data_empty_payload() {
    let e = FastBootResponse::from_bytes(b"DATA").unwrap_err();
    assert_eq!(e, FastBootResponseParseError::DataLength);
}

#[test]
fn response_parse_data_too_large() {
    let e = FastBootResponse::from_bytes(b"DATA100000000").unwrap_err();
    assert_eq!(e, FastBootResponseParseError::DataLength);
}

#[test]
fn response_parse_null_only_payload() {
    let r = FastBootResponse::from_bytes(b"OKAY\0junk").unwrap();
    assert_eq!(r, FastBootResponse::Okay(String::new()));
}

#[test]
fn response_parse_from_parts() {
    let r = FastBootResponse::from_parts("INFO", "hello").unwrap();
    assert_eq!(r, FastBootResponse::Info("hello".to_string()));
    let e = FastBootResponse::from_parts("OKAX", "hello").unwrap_err();
    assert_eq!(e, FastBootResponseParseError::UnknownReply);
}

#[test]
fn parse_hex_accepts_leading_plus() {
    // from_str_radix-style numerals may carry one leading plus sign
    let hex = parse_u32_hex("0x+12").unwrap();
    assert_eq!(0x12, hex);
}

#[test]
fn parse_hex_rejects_capital_prefix() {
    parse_u32_hex("0X12").unwrap_err();
    parse_u64_hex("x12").unwrap_err();
    parse_u32_hex("0x").unwrap_err();
}

#[test]
fn parse_hex_overflow() {
    parse_u32_hex("0x100000000").unwrap_err();
    assert_eq!(parse_u32_hex("0xffffffff").unwrap(), u32::MAX);
    assert_eq!(parse_u64_hex("0xffffffffffffffff").unwrap(), u64::MAX);
    parse_u64_hex("0x10000000000000000").unwrap_err();
}

#[test]
fn slice_null_cuts_at_first_null() {
    assert_eq!(bytes_slice_null(b"ab\0cd"), b"ab");
    assert_eq!(bytes_slice_null(b"abcd"), b"abcd");
    assert_eq!(bytes_slice_null(b"\0abcd"), b"");
}

#[test]
fn encode_commands() {
    assert_eq!(
        FastBootCommand::GetVar("version".to_string()).encode(),
        "getvar:version"
    );
    assert_eq!(FastBootCommand::Download(0x123456).encode(), "download:00123456");
    assert_eq!(
        FastBootCommand::Verify("boot_a".to_string()).encode(),
        "verity:boot_a"
    );
    assert_eq!(
        FastBootCommand::Flash("boot_a".to_string()).encode(),
        "flash:boot_a"
    );
    assert_eq!(
        FastBootCommand::Erase("userdata".to_string()).encode(),
        "erase:userdata"
    );
    assert_eq!(FastBootCommand::Boot.encode(), "boot");
    assert_eq!(FastBootCommand::Continue.encode(), "continue");
    assert_eq!(FastBootCommand::Reboot.encode(), "reboot");
    assert_eq!(FastBootCommand::RebootBootloader.encode(), "reboot-bootloader");
    assert_eq!(FastBootCommand::Powerdown.encode(), "powerdown");
}

#[test]
fn encode_download_full_width() {
    assert_eq!(FastBootCommand::Download(0).encode(), "download:00000000");
    assert_eq!(FastBootCommand::Download(u32::MAX).encode(), "download:ffffffff");
    assert_eq!(FastBootCommand::Download(0xdeadbeef).encode(), "download:deadbeef");
}

#[test]
fn download_round_trip() {
    let wire = FastBootCommand::Download(0x123456).encode();
    assert_eq!(wire, "download:00123456");
    let digits = &wire["download:".len()..];
    let back = parse_u32_hex(&format!("0x{}", digits)).unwrap();
    assert_eq!(back, 0x00123456);
    let mut frame = b"DATA".to_vec();
    frame.extend_from_slice(digits.as_bytes());
    let r = FastBootResponse::from_bytes(&frame).unwrap();
    assert_eq!(r, FastBootResponse::Data(0x123456));
}
