use skycore::responses::build_group;
use skycore::responses::write_array_length;
use skycore::responses::write_dec;
use skycore::responses::write_flat_array_length;
use skycore::responses::write_mono;
use skycore::responses::write_okay;
use skycore::responses::write_pipeline_query_header;
use skycore::responses::write_simple_query_header;
use skycore::responses::TSYMBOL_BINARY;
use skycore::responses::TSYMBOL_UNICODE;
use skycore::terrapipe::ActionType;
use skycore::terrapipe::RespCodes;

#[test]
fn decimal_rendering() {
    assert_eq!(write_dec(0), b"0".to_vec());
    assert_eq!(write_dec(7), b"7".to_vec());
    assert_eq!(write_dec(10), b"10".to_vec());
    assert_eq!(write_dec(1234), b"1234".to_vec());
    assert_eq!(write_dec(usize::MAX), usize::MAX.to_string().into_bytes());
}

#[test]
fn framing_primitives() {
    assert_eq!(write_simple_query_header(), b"*".to_vec());
    assert_eq!(write_pipeline_query_header(2), b"$2\n".to_vec());
    assert_eq!(write_flat_array_length(12), b"_12\n".to_vec());
    assert_eq!(write_array_length(3), b"&3\n".to_vec());
    assert_eq!(write_mono(TSYMBOL_UNICODE, b"bar"), b"+3\nbar\n".to_vec());
    assert_eq!(write_mono(TSYMBOL_BINARY, b""), b"?0\n\n".to_vec());
    assert_eq!(build_group(b"okay-ish"), b"!8\nokay-ish\n".to_vec());
    assert_eq!(write_okay(), b"!1\n0\n".to_vec());
}

#[test]
fn resp_codes_from_u8() {
    assert_eq!(RespCodes::from_u8(0, None), Some(RespCodes::Okay));
    assert_eq!(RespCodes::from_u8(1, None), Some(RespCodes::NotFound));
    assert_eq!(RespCodes::from_u8(2, None), Some(RespCodes::OverwriteError));
    assert_eq!(RespCodes::from_u8(3, None), Some(RespCodes::ActionError));
    assert_eq!(RespCodes::from_u8(4, None), Some(RespCodes::PacketError));
    assert_eq!(RespCodes::from_u8(5, None), Some(RespCodes::ServerError));
    assert_eq!(
        RespCodes::from_u8(6, Some("boom".to_string())),
        Some(RespCodes::OtherError(Some("boom".to_string())))
    );
    assert_eq!(RespCodes::from_u8(7, None), None);
}

#[test]
fn resp_codes_from_str() {
    assert_eq!(RespCodes::from_str("5", None), Some(RespCodes::ServerError));
    assert_eq!(RespCodes::from_str("05", None), Some(RespCodes::ServerError));
    assert_eq!(RespCodes::from_str("+3", None), Some(RespCodes::ActionError));
    assert_eq!(RespCodes::from_str("7", None), None);
    assert_eq!(RespCodes::from_str("", None), None);
    assert_eq!(RespCodes::from_str("+", None), None);
    assert_eq!(RespCodes::from_str("x", None), None);
    assert_eq!(RespCodes::from_str("256", None), None);
    assert_eq!(RespCodes::from_str("999999999999", None), None);
}

#[test]
fn resp_codes_from_utf8() {
    assert_eq!(RespCodes::from_utf8(b'0'), Some(RespCodes::Okay));
    assert_eq!(RespCodes::from_utf8(b'6'), Some(RespCodes::OtherError(None)));
    assert_eq!(RespCodes::from_utf8(b'7'), None);
    assert_eq!(RespCodes::from_utf8(b'/'), None);
    assert_eq!(RespCodes::from_utf8(0), None);
}

#[test]
fn resp_codes_to_wire_forms() {
    assert_eq!(u8::from(RespCodes::Okay), 0);
    assert_eq!(u8::from(RespCodes::ServerError), 5);
    assert_eq!(u8::from(RespCodes::OtherError(None)), 6);
    assert_eq!(char::from(RespCodes::PacketError), '4');
    assert_eq!(char::from(RespCodes::Okay), '0');
}

#[test]
fn action_types_are_distinct() {
    assert_ne!(ActionType::Simple, ActionType::Pipeline);
}
