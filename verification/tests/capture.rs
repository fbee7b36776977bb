use printcher::capture::{
    dest_dir, dest_dir_in, dest_file_name, expand_pattern, file_name, new_file_name, pattern_sample, preview_file_name,
    uri_to_path, DateParts, UriError,
};
use printcher::config::{Config, ImageFormat};
use printcher::paths::join_path;

fn sample_time() -> DateParts {
    DateParts { year: 2026, month: 3, day: 7, hour: 9, minute: 5, second: 3, nanosecond: 0 }
}

#[test]
fn expand_pattern_substitutes_every_date_code() {
    let out = expand_pattern("printcher_%Y-%m-%d_%H-%M-%S", sample_time(), 1);
    assert_eq!(out, "printcher_2026-03-07_09-05-03");
}

#[test]
fn expand_pattern_pads_the_counter_to_three_digits() {
    assert_eq!(expand_pattern("captura_%n", sample_time(), 7), "captura_007");
    assert_eq!(expand_pattern("captura_%n", sample_time(), 42), "captura_042");
    assert_eq!(expand_pattern("captura_%n", sample_time(), 1234), "captura_1234");
}

#[test]
fn expand_pattern_keeps_text_outside_codes_untouched() {
    assert_eq!(expand_pattern("sem códigos aqui", sample_time(), 1), "sem códigos aqui");
}

#[test]
fn dest_dir_uses_configured_folder_when_set() {
    let cfg = Config { folder: Some("/tmp/printcher-custom-dest".to_string()), ..Default::default() };
    assert_eq!(dest_dir(&cfg).as_deref(), Some("/tmp/printcher-custom-dest"));
}

#[test]
fn dest_path_names_the_file_with_the_configured_pattern_and_format() {
    let cfg = Config {
        folder: Some("/tmp/printcher-dest".to_string()),
        pattern: "shot_%n".to_string(),
        format: ImageFormat::WebP,
        ..Default::default()
    };
    let dir = dest_dir(&cfg).unwrap();
    let path = join_path(&dir, &dest_file_name(&cfg, sample_time(), 0));
    assert_eq!(path, "/tmp/printcher-dest/shot_001.webp");
}

#[test]
fn dest_dir_falls_back_to_pictures_then_home() {
    assert_eq!(
        dest_dir_in(&None, Some("/home/ana/Imagens".to_string()), Some("/home/ana".to_string())).as_deref(),
        Some("/home/ana/Imagens/printcher")
    );
    assert_eq!(dest_dir_in(&None, None, Some("/home/ana".to_string())).as_deref(), Some("/home/ana/printcher"));
    assert_eq!(dest_dir_in(&None, None, None), None);
}

#[test]
fn the_counter_counts_the_files_already_there() {
    let cfg = Config { pattern: "captura_%n".to_string(), format: ImageFormat::Jpg, ..Default::default() };
    assert_eq!(dest_file_name(&cfg, sample_time(), 41), "captura_042.jpg");
}

#[test]
fn the_preview_name_uses_the_first_counter_and_the_extension() {
    assert_eq!(file_name("print_%d-%m-%Y_%Hh%M", ImageFormat::Png, sample_time(), 1), "print_07-03-2026_09h05.png");
}

#[test]
fn years_outside_four_digits_carry_a_sign() {
    let far = DateParts { year: 12345, ..sample_time() };
    assert_eq!(expand_pattern("%Y", far, 1), "+12345");
    let early = DateParts { year: 7, ..sample_time() };
    assert_eq!(expand_pattern("%Y", early, 1), "0007");
    let before = DateParts { year: -44, ..sample_time() };
    assert_eq!(expand_pattern("%Y", before, 1), "-0044");
}

#[test]
fn a_leap_second_shows_as_sixty() {
    let leap = DateParts { second: 59, nanosecond: 1_500_000_000, ..sample_time() };
    assert_eq!(expand_pattern("%S", leap, 1), "60");
}

#[test]
fn a_code_is_replaced_every_time_it_appears() {
    assert_eq!(expand_pattern("%n-%n-%%n", sample_time(), 5), "005-005-%005");
}

#[test]
fn uri_to_path_strips_the_scheme() {
    assert_eq!(uri_to_path("file:///tmp/captura.png"), Ok("/tmp/captura.png".to_string()));
}

#[test]
fn uri_to_path_decodes_percent_escapes() {
    assert_eq!(uri_to_path("file:///tmp/minha%20captura%C3%A7.png"), Ok("/tmp/minha capturaç.png".to_string()));
}

#[test]
fn uri_to_path_refuses_other_schemes() {
    assert_eq!(uri_to_path("https://example.com/a.png"), Err(UriError::NotAFileUri));
    assert_eq!(uri_to_path("file:/"), Err(UriError::NotAFileUri));
}

#[test]
fn uri_to_path_refuses_invalid_utf8() {
    assert_eq!(uri_to_path("file:///tmp/%FF.png"), Err(UriError::InvalidUtf8));
}

#[test]
fn names_made_now_follow_the_pattern() {
    let cfg = Config { pattern: "shot_%n".to_string(), format: ImageFormat::Jpg, ..Default::default() };
    assert_eq!(new_file_name(&cfg, 4), "shot_005.jpg");
    assert_eq!(preview_file_name("captura_%n", ImageFormat::Png), "captura_001.png");
    assert_eq!(pattern_sample("captura_%n"), "captura_001");
    let dated = pattern_sample("%Y-%m-%d");
    assert_eq!(dated.len(), 10);
    assert!(dated.chars().enumerate().all(|(i, c)| if i == 4 || i == 7 { c == '-' } else { c.is_ascii_digit() }));
}

#[test]
fn dest_dir_defaults_to_printcher_in_the_pictures_or_home_folder() {
    let d = dest_dir(&Config::default()).expect("the test environment has a home folder");
    assert!(d.ends_with("/printcher"), "got {d}");
}
