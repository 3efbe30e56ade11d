use melody_bay::bytes::{be_u16, be_u32, le_u16, le_u32, read_u8, read_var_len};
use melody_bay::import::{ImportError, ImportWarning, ImportWarningKind, ImportedFormat};
use melody_bay::text::{hex_bytes, padded_decimal, padded_hex, trim_c_string};

#[test]
fn read_u8_moves_past_the_byte() {
    let bytes = [7u8, 9];
    let mut offset = 1usize;
    assert_eq!(read_u8(&bytes, &mut offset), Ok(9));
    assert_eq!(offset, 2);
    assert_eq!(read_u8(&bytes, &mut offset), Err(ImportError::InvalidFormat("unexpected end of data")));
    assert_eq!(offset, 2);
}

#[test]
fn var_len_reads_seven_bits_per_byte() {
    let mut offset = 0usize;
    assert_eq!(read_var_len(&[0x7f], &mut offset), Ok(127));
    assert_eq!(offset, 1);
    let mut offset = 0usize;
    assert_eq!(read_var_len(&[0x81, 0x00], &mut offset), Ok(128));
    assert_eq!(offset, 2);
    let mut offset = 0usize;
    assert_eq!(read_var_len(&[0xff, 0xff, 0xff, 0x7f], &mut offset), Ok(0x0fff_ffff));
    assert_eq!(offset, 4);
}

#[test]
fn var_len_errors() {
    let mut offset = 0usize;
    assert_eq!(
        read_var_len(&[0x80, 0x80, 0x80, 0x80, 0x00], &mut offset),
        Err(ImportError::MalformedTiming("invalid variable length value"))
    );
    let mut offset = 0usize;
    assert_eq!(read_var_len(&[0x81], &mut offset), Err(ImportError::InvalidFormat("unexpected end of data")));
}

#[test]
fn fixed_width_readers() {
    let bytes = [0x12u8, 0x34, 0x56, 0x78];
    assert_eq!(be_u16(&bytes, 0), Ok(0x1234));
    assert_eq!(le_u16(&bytes, 0), Ok(0x3412));
    assert_eq!(be_u32(&bytes, 0), Ok(0x1234_5678));
    assert_eq!(le_u32(&bytes, 0), Ok(0x7856_3412));
    assert_eq!(be_u16(&bytes, 3), Err(ImportError::InvalidFormat("unexpected end of data")));
    assert_eq!(le_u32(&bytes, 1), Err(ImportError::InvalidFormat("unexpected end of data")));
}

#[test]
fn c_strings_stop_at_nul_and_trim() {
    assert_eq!(trim_c_string(b"Song\0junk"), "Song");
    assert_eq!(trim_c_string(b"  pad  "), "pad");
    assert_eq!(trim_c_string(b"\0abc"), "");
}

#[test]
fn numbers_as_text() {
    assert_eq!(hex_bytes(&[0x04, 0x02, 0x18, 0x08]), "04021808");
    assert_eq!(padded_decimal(7, 3), "007");
    assert_eq!(padded_decimal(1234, 2), "1234");
    assert_eq!(padded_hex(0xe5, 0), "e5");
    assert_eq!(padded_hex(5, 2), "05");
}

#[test]
fn warning_messages() {
    let w = ImportWarning::unsupported_effect(ImportedFormat::Mod, String::from("e50"));
    assert_eq!(w.message, "unsupported Mod effect e50");
    assert_eq!(w.kind, ImportWarningKind::UnsupportedEffect { format: ImportedFormat::Mod, effect: String::from("e50") });
    let w = ImportWarning::unsupported_event(ImportedFormat::Midi, String::from("text: hi"));
    assert_eq!(w.message, "unsupported Midi event text: hi");
    let w = ImportWarning::dropped_controller(ImportedFormat::Xm, String::from("20"));
    assert_eq!(w.message, "dropped Xm controller or automation 20");
    let w = ImportWarning::approximated_timing(ImportedFormat::Midi, String::from("grid"));
    assert_eq!(w.message, "grid");
    let w = ImportWarning::new(String::from("bad"));
    assert_eq!(w.message, "bad");
    assert_eq!(w.kind, ImportWarningKind::InvalidMetadata);
}

#[test]
fn import_error_messages() {
    assert_eq!(ImportError::InvalidFormat("x").to_string(), "invalid format: x");
    assert_eq!(ImportError::UnsupportedFormatFeature("y").to_string(), "unsupported format feature: y");
    assert_eq!(ImportError::MalformedTiming("z").to_string(), "malformed timing: z");
    assert_eq!(ImportError::MalformedSampleData("w").to_string(), "malformed sample data: w");
    assert_eq!(ImportError::ParserFailure(String::from("v")).to_string(), "parser failure: v");
}
