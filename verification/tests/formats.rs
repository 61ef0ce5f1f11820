//! Texts that are read and written: configurations, descriptions, feature maps, versions.

use xgb::array_interface::{write_interface_1d, write_interface_2d, ARRAY_INTERFACE_BUF};
use xgb::cbuf::{BufferFull, CBuf};
use xgb::ctext::{has_nul, with_nul};
use xgb::number::is_number_text;
use xgb::predict_config;
use xgb::shapes::{is_sound_output, predict_output_len};
use xgb::text::parse_u32;
use xgb::version::{linked_version_matches, version_text, CRATE_VERSION};
use xgb::{FeatureMap, FeatureType, IntFault, PredictConfig, PredictType};

#[test]
fn linked_library_version_matches_crate_version() {
    let (major, minor, patch) = (3, 4, 1);
    let linked = version_text(major, minor, patch);
    assert_eq!(linked, CRATE_VERSION);
    assert_eq!(linked, "3.4.1");
    assert!(linked_version_matches(major, minor, patch));
    assert!(!linked_version_matches(3, 4, 0));
    assert!(!linked_version_matches(34, 1, 0));
    assert_eq!(version_text(10, 0, -1), "10.0.-1");
}

#[test]
fn configurations_as_json() {
    assert_eq!(
        PredictConfig::default().as_json(),
        "{\"type\":0,\"training\":false,\"iteration_begin\":0,\"iteration_end\":0,\"strict_shape\":false}\0"
    );
    let config = PredictConfig {
        _type: PredictType::PredictApproximateFeatureInteractions,
        training: true,
        iteration_begin: i64::MIN,
        iteration_end: i64::MAX,
        strict_shape: true,
    };
    assert_eq!(
        config.as_json(),
        "{\"type\":5,\"training\":true,\"iteration_begin\":-9223372036854775808,\"iteration_end\":9223372036854775807,\"strict_shape\":true}\0"
    );
}

#[test]
fn fixed_configurations_are_those_of_as_json() {
    let of = |kind: PredictType| PredictConfig { _type: kind, ..PredictConfig::default() }.as_json();
    assert_eq!(predict_config::NORMAL, of(PredictType::Normal));
    assert_eq!(predict_config::MARGIN, of(PredictType::OutputMargin));
    assert_eq!(predict_config::CONTRIBUTIONS, of(PredictType::PredictContribitions));
    assert_eq!(predict_config::INTERACTIONS, of(PredictType::PredictFeatureInteractions));
    assert_eq!(predict_config::LEAF, of(PredictType::PredictLeafTraining));
    assert_eq!(PredictType::default().as_usize(), 0);
    assert_eq!(PredictType::PredictApproximateContributions.as_usize(), 3);
}

#[test]
fn a_buffer_keeps_a_byte_for_the_terminator() {
    let mut buf = CBuf::<5>::new();
    assert_eq!(buf.as_cstr(), b"\0");
    assert_eq!(buf.write_str("abc"), Ok(()));
    assert_eq!(buf.write_str("de"), Err(BufferFull));
    assert_eq!(buf.as_cstr(), b"abc\0");
    assert_eq!(buf.write_str("d"), Ok(()));
    assert_eq!(buf.write_str("e"), Err(BufferFull));
    assert_eq!(buf.write_str(""), Ok(()));
    assert_eq!(buf.as_cstr(), b"abcd\0");
    assert_eq!(CBuf::<0>::new().write_str(""), Err(BufferFull));
    assert_eq!(CBuf::<1>::new().write_str("x"), Err(BufferFull));
}

#[test]
fn array_descriptions() {
    let mut buf = CBuf::<ARRAY_INTERFACE_BUF>::new();
    assert_eq!(
        write_interface_1d(&mut buf, 140123, 7, "<u8"),
        b"{\"data\":[140123,false],\"shape\":[7],\"strides\":null,\"typestr\":\"<u8\",\"version\":3}\0"
    );
    let mut buf = CBuf::<ARRAY_INTERFACE_BUF>::new();
    let longest = write_interface_2d(&mut buf, usize::MAX, usize::MAX, usize::MAX);
    assert!(longest.len() < 140);
    let text = std::str::from_utf8(longest).unwrap();
    let n = usize::MAX;
    assert_eq!(
        text,
        format!(
            "{{\"data\":[{},false],\"shape\":[{},{}],\"strides\":null,\"typestr\":\"<f4\",\"version\":3}}\0",
            n, n, n
        )
    );
}

#[test]
fn numbers_are_read_as_std_reads_them() {
    for s in [
        "", "+", "-", "0", "00", "7", "+7", "-7", "++7", "4294967295", "4294967296",
        "99999999999999999999", "12a", "a12", " 1", "1 ", "٣", "4294967296a", "+4294967295",
    ] {
        let ours = parse_u32(s).map_err(|fault| fault.as_str().to_owned());
        let theirs = s.parse::<u32>().map_err(|e| e.to_string());
        assert_eq!(ours, theirs, "{:?}", s);
    }
    assert_eq!(parse_u32(""), Err(IntFault::Empty));
    assert_eq!(parse_u32("x"), Err(IntFault::InvalidDigit));
    assert_eq!(parse_u32("4294967296"), Err(IntFault::Overflow));
}

#[test]
fn number_texts_are_those_that_std_reads() {
    for s in [
        "", "+", "-", ".", "+.", "0", "-0", "+1.5", "1.", ".5", "-.5e1", "1..2", "1.2.3", "1e5",
        "1E5", "1e+5", "1e-5", "1e", "1e+", "e5", ".e5", "1.e5", "1e5e5", "1e5.0", "1e999", "inf",
        "INF", "-Inf", "infinity", "+InFiNiTy", "infinit", "infinityy", "nan", "-NaN", "NAN",
        "nann", "abc", " 1", "1 ", "1_0", "0x1", "1f", "--1", "+-1", "1,5", "٣", "1e٣", "ınf",
        "0.006634271", "99999999999999999999999999999999999999999", "1e--5", "-", "E", "e",
    ] {
        assert_eq!(is_number_text(s), s.parse::<f32>().is_ok(), "{:?}", s);
    }
}

fn lines(text: &str) -> Vec<String> {
    text.lines().map(str::to_owned).collect()
}

#[test]
fn feature_maps_are_read_and_written() {
    let text = "0\tage\tint\n1\tis-parent?=yes\ti\n2\tis-parent?=no\ti\n3\tincome\tint\n";
    let map = FeatureMap::from_lines(&lines(text)).ok().unwrap();
    assert_eq!(map.to_text(), text);
    // By number, the last definition of a number.
    let map = FeatureMap::from_lines(&lines("10\tb\tq\n+2\ta\ti\n10\tc d\tint\n")).ok().unwrap();
    assert_eq!(map.to_text(), "2\ta\ti\n10\tc d\tint\n");
    let map = FeatureMap::from_lines(&[]).ok().unwrap();
    assert_eq!(map.to_text(), "");
}

#[test]
fn faults_in_feature_maps_are_told_by_line() {
    let fault = |text: &str| FeatureMap::from_lines(&lines(text)).err().unwrap();
    assert_eq!(
        fault("0\tage\tint\n1\tx"),
        "Unable to parse features from line 2, expected 3 tab separated values"
    );
    assert_eq!(
        fault("0\tage\tint\textra"),
        "Unable to parse features from line 1, expected 3 tab separated values"
    );
    assert_eq!(
        fault("x\tage\tint"),
        "Unable to parse features from line 1, could not parse feature number: invalid digit found in string"
    );
    assert_eq!(
        fault("\tage\tint"),
        "Unable to parse features from line 1, could not parse feature number: cannot parse integer from empty string"
    );
    assert_eq!(
        fault("4294967296\tage\tint"),
        "Unable to parse features from line 1, could not parse feature number: number too large to fit in target type"
    );
    assert_eq!(
        fault("0\ta\ti\n1\tb\tq\n2\tc\tfloat\n3"),
        "Unable to parse features from line 3: unrecognised feature type 'float', must be one of: 'i', 'q', 'int'"
    );
}

#[test]
fn feature_types_read_back() {
    for kind in [FeatureType::Binary, FeatureType::Quantitative, FeatureType::Integer] {
        assert_eq!(FeatureType::from_str(kind.as_str()), Ok(kind));
        assert_eq!(kind.as_str().parse::<FeatureType>(), Ok(kind));
    }
    assert_eq!(FeatureType::Integer.as_str(), "int");
    assert_eq!(
        FeatureType::from_str("I"),
        Err("unrecognised feature type 'I', must be one of: 'i', 'q', 'int'".to_owned())
    );
}

#[test]
fn output_lengths() {
    assert!(is_sound_output(&[3, 4], true));
    assert_eq!(predict_output_len(&[3, 4], true), 12);
    assert_eq!(predict_output_len(&[], true), 1);
    // A null pointer is for an empty prediction only.
    assert!(is_sound_output(&[0, 4], false));
    assert_eq!(predict_output_len(&[0, 4], false), 0);
    assert!(!is_sound_output(&[3, 4], false));
    assert!(!is_sound_output(&[], false));
    assert!(!is_sound_output(&[u64::MAX, 2], true));
    assert!(!is_sound_output(&[u64::MAX, 2, 0], true));
}

#[test]
fn terminators() {
    assert!(has_nul("a\0"));
    assert!(!has_nul("ab"));
    assert_eq!(with_nul("ab"), "ab\0");
    assert_eq!(with_nul(""), "\0");
}
