use printcher::config::{ImageFormat, Theme};
use printcher::settings::{
    elapsed_seconds, format_of_row, format_row, history_entries, history_extension, relative_time, theme_of_row, theme_row, FolderFile,
};

#[test]
fn relative_time_labels() {
    assert_eq!(relative_time(None), "agora");
    assert_eq!(relative_time(Some(59)), "agora");
    assert_eq!(relative_time(Some(60)), "1 min");
    assert_eq!(relative_time(Some(5 * 60 + 59)), "5 min");
    assert_eq!(relative_time(Some(3600)), "1 h");
    assert_eq!(relative_time(Some(2 * 3600 + 10)), "2 h");
    assert_eq!(relative_time(Some(24 * 3600)), "ontem");
    assert_eq!(relative_time(Some(48 * 3600 - 1)), "ontem");
    assert_eq!(relative_time(Some(48 * 3600)), "2 dias");
    assert_eq!(relative_time(Some(5 * 24 * 3600 + 7)), "5 dias");
}

#[test]
fn rows_of_the_choice_lists() {
    for format in [ImageFormat::Png, ImageFormat::Jpg, ImageFormat::WebP] {
        assert_eq!(format_of_row(format_row(format)), format);
    }
    for theme in [Theme::Light, Theme::Dark, Theme::System] {
        assert_eq!(theme_of_row(theme_row(theme)), theme);
    }
    assert_eq!(format_row(ImageFormat::WebP), 2);
    assert_eq!(theme_row(Theme::System), 2);
    assert_eq!(format_of_row(7), ImageFormat::Png);
    assert_eq!(theme_of_row(7), Theme::System);
}

#[test]
fn history_extensions_ignore_case() {
    assert!(history_extension("png"));
    assert!(history_extension("JPG"));
    assert!(history_extension("WebP"));
    assert!(!history_extension("gif"));
    assert!(!history_extension("pngx"));
    assert!(!history_extension(""));
}

fn file(path: &str, ext: Option<&str>, modified: Option<i128>) -> FolderFile {
    FolderFile { path: path.to_string(), extension: ext.map(|e| e.to_string()), modified }
}

#[test]
fn history_lists_captures_newest_first() {
    let files = vec![
        file("a.png", Some("png"), Some(10)),
        file("notes.txt", Some("txt"), Some(50)),
        file("b.JPG", Some("JPG"), Some(30)),
        file("c.webp", Some("webp"), None),
        file("d.png", Some("png"), Some(30)),
        file("README", None, Some(99)),
        file("e.webp", Some("webp"), Some(20)),
    ];
    let names: Vec<String> = history_entries(files).into_iter().map(|e| e.path).collect();
    assert_eq!(names, vec!["b.JPG", "d.png", "e.webp", "a.png"]);
}

#[test]
fn empty_folder_has_no_history() {
    assert!(history_entries(Vec::new()).is_empty());
}

#[test]
fn elapsed_seconds_count_whole_seconds_and_refuse_the_future() {
    let s = 1_000_000_000i128;
    assert_eq!(elapsed_seconds(10 * s, 10 * s), Some(0));
    assert_eq!(elapsed_seconds(10 * s + 999_999_999, 10 * s), Some(0));
    assert_eq!(elapsed_seconds(100 * s, 10 * s), Some(90));
    assert_eq!(elapsed_seconds(5 * s, -3 * s - 1), Some(8));
    assert_eq!(elapsed_seconds(10 * s, 10 * s + 1), None);
    assert_eq!(relative_time(elapsed_seconds(7200 * s, 0)), "2 h");
}
