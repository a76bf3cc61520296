use std::num::IntErrorKind;
use tsresolver::port::{parse_port, PortError};

#[test]
fn ports_are_read_as_the_standard_library_reads_them() {
    let texts = [
        "", "+", "-", "0", "1", "+1", "-1", "++1", "00000080", "65535", "65536", "65540", "99999a",
        "9999a", "a99999", "1 ", " 1", "1_0", "\u{661}", "100000000000000000000000",
    ];
    for text in texts {
        let expected = match text.parse::<u16>() {
            Ok(port) => Ok(port),
            Err(e) => Err(match e.kind() {
                IntErrorKind::Empty => PortError::Empty,
                IntErrorKind::InvalidDigit => PortError::InvalidDigit,
                _ => PortError::PosOverflow,
            }),
        };
        assert_eq!(parse_port(text), expected, "{:?}", text);
    }
}
