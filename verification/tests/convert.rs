use asciinema::{Convert, ConvertError, EncoderKind, Format};

fn convert(input: &str, output: &str, format: Option<Format>, overwrite: bool) -> Convert {
    Convert { input: input.to_owned(), output: output.to_owned(), output_format: format, overwrite }
}

#[test]
fn txt_format_is_inferred_before_zstd_suffix() {
    let c = convert("in.cast", "recording.txt.zst", None, false);
    assert_eq!(c.get_encoder(), EncoderKind::Txt);
    assert!(c.is_compressed());
}

#[test]
fn inference_ignores_case_and_defaults_to_v3() {
    assert_eq!(convert("a", "OUT.TXT", None, false).get_encoder(), EncoderKind::Txt);
    assert_eq!(
        convert("a", "out.cast.ZST", None, false).get_encoder(),
        EncoderKind::AsciicastV3 { append: false }
    );
    assert_eq!(
        convert("a", "out.txt.zst.zst", None, false).get_encoder(),
        EncoderKind::AsciicastV3 { append: false }
    );
    assert_eq!(
        convert("a", "out.txt", Some(Format::AsciicastV2), false).get_encoder(),
        EncoderKind::AsciicastV2 { append: false, time_offset_micros: 0 }
    );
    assert_eq!(convert("a", "out", Some(Format::Raw), false).get_encoder(), EncoderKind::Raw);
    assert!(!convert("a", "out.zst.txt", None, false).is_compressed());
}

#[test]
fn dash_means_standard_streams() {
    let c = convert("-", "-", None, false);
    assert_eq!(c.get_input_path(), "/dev/stdin");
    assert_eq!(c.get_output_path(), "/dev/stdout");
    let c = convert("in.cast", "out.cast", None, false);
    assert_eq!(c.get_input_path(), "in.cast");
    assert_eq!(c.get_output_path(), "out.cast");
}

#[test]
fn existing_files_are_only_replaced_when_allowed() {
    let c = convert("in", "out", None, false);
    assert_eq!(c.get_mode(None), Ok(false));
    assert_eq!(c.get_mode(Some(0)), Ok(true));
    assert_eq!(c.get_mode(Some(10)), Err(ConvertError::FileExists));
    let c = convert("in", "out", None, true);
    assert_eq!(c.get_mode(None), Ok(true));
    assert_eq!(c.get_mode(Some(10)), Ok(true));
}

#[test]
fn run_plans_the_whole_conversion() {
    let c = convert("-", "rec.txt.zst", None, false);
    let plan = c.run(None).unwrap();
    assert_eq!(plan.input_path, "/dev/stdin");
    assert_eq!(plan.output_path, "rec.txt.zst");
    assert_eq!(plan.encoder, EncoderKind::Txt);
    assert!(!plan.overwrite);
    assert!(plan.compressed);
    assert_eq!(c.run(Some(3)).err(), Some(ConvertError::FileExists));
}
