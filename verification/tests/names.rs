use bulk_rename::path::{
    append_suffix_before_ext, extension_of_path, file_name_of, file_stem_of, replace_file_name,
};
use bulk_rename::thumbnail::has_image_extension;
use bulk_rename::template::{
    expand_segments, format_number, generate_targets, resolve_dates, Block, FileEntry, Segment,
    TemplateError, Timestamp,
};

fn entries(paths: &[&str]) -> Vec<FileEntry> {
    paths.iter().map(|p| FileEntry { path: p.to_string() }).collect()
}

fn default_blocks() -> Vec<Block> {
    vec![
        Block::Number { width: 4, start: 1, step: 1 },
        Block::Literal("_".to_string()),
        Block::Original,
    ]
}

fn epoch() -> Timestamp {
    Timestamp { seconds: 0, nanos: 0, offset_seconds: 0 }
}

#[test]
fn format_number_pads_with_zeros() {
    assert_eq!(format_number(0, 4, 1, 1), "0001");
    assert_eq!(format_number(1, 4, 1, 1), "0002");
    assert_eq!(format_number(9, 4, 1, 1), "0010");
    assert_eq!(format_number(3, 2, 100, 50), "250");
}

#[test]
fn format_number_leaves_long_numerals_alone() {
    assert_eq!(format_number(0, 0, 5, 1), "5");
    assert_eq!(format_number(0, 1, 12345, 0), "12345");
    assert_eq!(format_number(0, 5, 12345, 0), "12345");
    assert_eq!(format_number(0, 1, -12, 0), "-12");
    assert_eq!(format_number(0, 3, -12, 0), "-12");
}

#[test]
fn format_number_pads_behind_the_minus_sign() {
    assert_eq!(format_number(0, 5, -5, 1), "-0005");
    assert_eq!(format_number(2, 3, 1, -1), "-01");
    assert_eq!(format_number(2, 4, 0, -7), "-014");
}

#[test]
fn format_number_agrees_with_std_formatting() {
    for width in 0..8usize {
        for value in [-1234i64, -100, -10, -9, -1, 0, 1, 9, 10, 99, 100, 4321] {
            let expected = format!("{:0width$}", value, width = width);
            assert_eq!(format_number(0, width, value, 3), expected);
            assert_eq!(format_number(1, width, value - 3, 3), expected);
        }
    }
}

#[test]
fn format_number_does_not_overflow() {
    assert_eq!(
        format_number(usize::MAX, 0, i64::MAX, i64::MAX),
        (i64::MAX as i128 + (usize::MAX as i128) * (i64::MAX as i128)).to_string()
    );
    assert_eq!(
        format_number(usize::MAX, 0, i64::MIN, i64::MIN),
        (i64::MIN as i128 + (usize::MAX as i128) * (i64::MIN as i128)).to_string()
    );
    assert_eq!(format_number(2, 0, i64::MAX, i64::MAX), "27670116110564327421");
}

#[test]
fn stem_and_extension_split_at_the_last_dot() {
    assert_eq!(file_stem_of("a/b/c.tar.gz"), "c.tar");
    assert_eq!(extension_of_path("a/b/c.tar.gz"), Some("gz".to_string()));
    assert_eq!(file_stem_of("photo.JPG"), "photo");
    assert_eq!(extension_of_path("photo.JPG"), Some("JPG".to_string()));
    assert_eq!(file_name_of("/home/u/photo.JPG"), "photo.JPG");
}

#[test]
fn a_leading_dot_starts_no_extension() {
    assert_eq!(file_stem_of("/home/u/.bashrc"), ".bashrc");
    assert_eq!(extension_of_path("/home/u/.bashrc"), None);
    assert_eq!(file_stem_of(".config.toml"), ".config");
    assert_eq!(extension_of_path(".config.toml"), Some("toml".to_string()));
}

#[test]
fn names_without_a_dot_have_no_extension() {
    assert_eq!(file_stem_of("Makefile"), "Makefile");
    assert_eq!(extension_of_path("Makefile"), None);
    assert_eq!(file_stem_of("dir.d/file"), "file");
    assert_eq!(extension_of_path("dir.d/file"), None);
    assert_eq!(file_stem_of("x."), "x");
    assert_eq!(extension_of_path("x."), Some(String::new()));
    assert_eq!(file_stem_of(""), "");
    assert_eq!(extension_of_path(""), None);
}

#[test]
fn path_functions_agree_with_std_on_plain_file_paths() {
    for p in ["x.txt", "/d/x.txt", "a/b/c.tar.gz", "/home/u/.bashrc", "rel/noext", "ünï.cödé"] {
        let std_path = std::path::Path::new(p);
        let stem = std_path.file_stem().and_then(|s| s.to_str()).unwrap_or("");
        let ext = std_path.extension().and_then(|s| s.to_str()).map(|s| s.to_string());
        assert_eq!(file_stem_of(p), stem);
        assert_eq!(extension_of_path(p), ext);
        let mut renamed = std_path.to_path_buf();
        renamed.set_file_name("new name.x");
        assert_eq!(replace_file_name(p, "new name.x"), renamed.to_str().unwrap());
    }
}

#[test]
fn replace_file_name_keeps_the_directory() {
    assert_eq!(replace_file_name("/d/e/x.txt", "y.md"), "/d/e/y.md");
    assert_eq!(replace_file_name("x.txt", "y.md"), "y.md");
    assert_eq!(replace_file_name("/x.txt", "y"), "/y");
}

#[test]
fn suffix_goes_before_the_extension() {
    assert_eq!(append_suffix_before_ext("x.txt", " (1)"), "x (1).txt");
    assert_eq!(append_suffix_before_ext("/d/x.txt", " (2)"), "/d/x (2).txt");
    assert_eq!(append_suffix_before_ext("/d/archive.tar.gz", " (3)"), "/d/archive.tar (3).gz");
}

#[test]
fn suffix_goes_behind_a_stem_without_extension() {
    assert_eq!(append_suffix_before_ext("/d/x", " (1)"), "/d/x (1)");
    assert_eq!(append_suffix_before_ext(".bashrc", " (1)"), ".bashrc (1)");
    assert_eq!(append_suffix_before_ext("x", ""), "x");
}

#[test]
fn default_template_numbers_files_in_list_order() {
    let files = entries(&["b.txt", "a.txt"]);
    let names = generate_targets(&files, &default_blocks(), epoch()).unwrap();
    assert_eq!(names, vec!["0001_b.txt".to_string(), "0002_a.txt".to_string()]);
}

#[test]
fn one_name_for_every_file() {
    let files = entries(&["/d/a.txt", "/d/b", "/e/.c", "/e/d.tar.gz", "e."]);
    let names = generate_targets(&files, &default_blocks(), epoch()).unwrap();
    assert_eq!(names.len(), files.len());
    assert_eq!(
        names,
        vec![
            "0001_a.txt".to_string(),
            "0002_b".to_string(),
            "0003_.c".to_string(),
            "0004_d.tar.gz".to_string(),
            "0005_e.".to_string(),
        ]
    );
    let none: Vec<FileEntry> = Vec::new();
    assert_eq!(generate_targets(&none, &default_blocks(), epoch()).unwrap().len(), 0);
}

#[test]
fn empty_template_leaves_the_extension() {
    let files = entries(&["/d/a.txt", "/d/b"]);
    let names = generate_targets(&files, &Vec::new(), epoch()).unwrap();
    assert_eq!(names, vec![".txt".to_string(), String::new()]);
}

#[test]
fn blocks_are_joined_left_to_right() {
    let blocks = vec![
        Block::Original,
        Block::Literal("-".to_string()),
        Block::Number { width: 2, start: 10, step: -5 },
        Block::Literal("-".to_string()),
        Block::Original,
    ];
    let files = entries(&["/d/a.txt", "/d/b.txt", "/d/c.txt", "/d/d.txt"]);
    let names = generate_targets(&files, &blocks, epoch()).unwrap();
    assert_eq!(
        names,
        vec![
            "a-10-a.txt".to_string(),
            "b-05-b.txt".to_string(),
            "c-00-c.txt".to_string(),
            "d--5-d.txt".to_string(),
        ]
    );
}

#[test]
fn date_block_writes_the_given_time() {
    let blocks = vec![Block::Date { format: "%Y%m%d".to_string() }, Block::Original];
    let files = entries(&["/d/a.txt", "/d/b.txt"]);
    let names = generate_targets(&files, &blocks, epoch()).unwrap();
    assert_eq!(names, vec!["19700101a.txt".to_string(), "19700101b.txt".to_string()]);
    let later = Timestamp { seconds: 1_700_000_000, nanos: 0, offset_seconds: 0 };
    let names = generate_targets(&files, &blocks, later).unwrap();
    assert_eq!(names, vec!["20231114a.txt".to_string(), "20231114b.txt".to_string()]);
}

#[test]
fn date_block_writes_local_time() {
    let blocks = vec![Block::Date { format: "%Y-%m-%d %H.%M".to_string() }];
    let files = entries(&["x"]);
    let tokyo = Timestamp { seconds: 16 * 3600, nanos: 0, offset_seconds: 9 * 3600 };
    assert_eq!(
        generate_targets(&files, &blocks, tokyo).unwrap(),
        vec!["1970-01-02 01.00".to_string()]
    );
    let west = Timestamp { seconds: 3600, nanos: 0, offset_seconds: -2 * 3600 };
    assert_eq!(
        generate_targets(&files, &blocks, west).unwrap(),
        vec!["1969-12-31 23.00".to_string()]
    );
}

#[test]
fn date_block_agrees_with_chrono() {
    let now = Timestamp { seconds: 1_700_000_000, nanos: 123_456_789, offset_seconds: 5400 };
    let zone = chrono::FixedOffset::east_opt(5400).unwrap();
    let time = chrono::DateTime::from_timestamp(1_700_000_000, 123_456_789)
        .unwrap()
        .with_timezone(&zone);
    for pattern in ["%Y%m%d", "%H:%M:%S%.3f", "%a %b %e", "%z", "plain", "%%", ""] {
        let blocks = vec![Block::Date { format: pattern.to_string() }];
        let names = generate_targets(&entries(&["x"]), &blocks, now).unwrap();
        assert_eq!(names, vec![time.format(pattern).to_string()]);
    }
}

#[test]
fn bad_date_pattern_is_an_error() {
    let blocks = vec![
        Block::Date { format: "%Y".to_string() },
        Block::Original,
        Block::Date { format: "%Q".to_string() },
        Block::Date { format: "%".to_string() },
    ];
    let files = entries(&["/d/a.txt"]);
    assert_eq!(
        generate_targets(&files, &blocks, epoch()),
        Err(TemplateError::BadDatePattern { block: 2 })
    );
    assert_eq!(resolve_dates(&blocks, epoch()), Err(TemplateError::BadDatePattern { block: 2 }));
}

#[test]
fn bad_date_pattern_does_not_matter_without_files() {
    let blocks = vec![Block::Date { format: "%Q".to_string() }];
    let none: Vec<FileEntry> = Vec::new();
    assert_eq!(generate_targets(&none, &blocks, epoch()), Ok(Vec::new()));
}

#[test]
fn time_out_of_range_is_an_error() {
    let blocks = vec![Block::Date { format: "%Y".to_string() }];
    let files = entries(&["x"]);
    let far = Timestamp { seconds: i64::MAX, nanos: 0, offset_seconds: 0 };
    assert_eq!(
        generate_targets(&files, &blocks, far),
        Err(TemplateError::BadDatePattern { block: 0 })
    );
    let skewed = Timestamp { seconds: 0, nanos: 0, offset_seconds: 86_400 };
    assert_eq!(
        generate_targets(&files, &blocks, skewed),
        Err(TemplateError::BadDatePattern { block: 0 })
    );
}

#[test]
fn resolved_dates_become_text() {
    let blocks = vec![
        Block::Literal("a".to_string()),
        Block::Date { format: "%Y".to_string() },
        Block::Number { width: 3, start: 7, step: 2 },
        Block::Original,
    ];
    let segments = resolve_dates(&blocks, epoch()).unwrap();
    assert_eq!(
        segments,
        vec![
            Segment::Text("a".to_string()),
            Segment::Text("1970".to_string()),
            Segment::Counter { width: 3, start: 7, step: 2 },
            Segment::Stem,
        ]
    );
    assert_eq!(expand_segments(&segments, 4, "/d/file.rs"), "a1970015file.rs");
}

#[test]
fn image_extensions_are_known_in_any_case() {
    for p in ["a.png", "/d/a.JPG", "a.b.Jpeg", "x.WEBP", "x.gif", "x.Bmp", "x.ico", ".x.PnG"] {
        assert!(has_image_extension(p), "{}", p);
    }
    for p in ["a.txt", "png", ".png", "a.png/b", "a.pn", "a.pngg", "a.jpe", "a.", "", "a.İCO", "a.jp\u{212A}"] {
        assert!(!has_image_extension(p), "{}", p);
    }
}

#[test]
fn date_block_at_the_ends_of_time_does_not_panic() {
    let least = chrono::DateTime::<chrono::Utc>::MIN_UTC.timestamp();
    let most = chrono::DateTime::<chrono::Utc>::MAX_UTC.timestamp();
    let files = entries(&["x"]);
    for seconds in [i64::MIN, least - 1, least, least + 1, -1, 0, most - 1, most, most + 1] {
        for nanos in [0u32, 999_999_999, 1_000_000_000, 1_999_999_999, u32::MAX] {
            for offset_seconds in [i32::MIN, -86_400, -86_399, 0, 86_399, 86_400, i32::MAX] {
                let now = Timestamp { seconds, nanos, offset_seconds };
                for pattern in
                    ["%Y-%m-%d %H:%M:%S%.f", "%c", "%+", "%s", "%G-%V %a", "%j %U %e %b", "%D %T %Z"]
                {
                    let blocks = vec![Block::Date { format: pattern.to_string() }];
                    match generate_targets(&files, &blocks, now) {
                        Ok(names) => assert_eq!(names.len(), 1),
                        Err(e) => assert_eq!(e, TemplateError::BadDatePattern { block: 0 }),
                    }
                }
            }
        }
    }
}

#[test]
fn odd_date_patterns_do_not_panic() {
    let files = entries(&["x"]);
    for pattern in ["%", "%%%", "%é", "é%", "%-", "%10Y", "%:", "%::", "%.", "%.3", "%#z", "%\u{0}", "%3", "%_", "%0"] {
        let blocks = vec![Block::Date { format: pattern.to_string() }];
        match generate_targets(&files, &blocks, epoch()) {
            Ok(names) => assert_eq!(names.len(), 1),
            Err(e) => assert_eq!(e, TemplateError::BadDatePattern { block: 0 }),
        }
    }
}
