use batch_rename::rules::{detect_conflicts, has_invalid_chars, split_filename, RenameRule};

fn apply(rule: &RenameRule, name: &str, index: usize) -> String {
    rule.apply_to_filename(name, index).unwrap()
}

#[test]
fn test_replace_rule() {
    let rule = RenameRule::Replace {
        find: "IMG_".to_string(),
        replace: "Photo_".to_string(),
        regex: false,
        case_sensitive: true,
    };

    assert_eq!(rule.apply_to_filename("IMG_001.jpg", 0).unwrap(), "Photo_001.jpg");
    assert_eq!(rule.apply_to_filename("document.txt", 0).unwrap(), "document.txt");
}

#[test]
fn test_sequence_rule() {
    let rule = RenameRule::Sequence {
        start: 1,
        step: 1,
        width: 3,
        order: "current".to_string(),
    };

    assert_eq!(rule.apply_to_filename("photo.jpg", 0).unwrap(), "photo_001.jpg");
    assert_eq!(rule.apply_to_filename("photo.jpg", 4).unwrap(), "photo_005.jpg");
}

#[test]
fn test_case_rule() {
    let rule = RenameRule::Case {
        mode: "upper".to_string(),
    };

    assert_eq!(rule.apply_to_filename("hello world.txt", 0).unwrap(), "HELLO WORLD.txt");

    let rule = RenameRule::Case {
        mode: "snake".to_string(),
    };

    assert_eq!(rule.apply_to_filename("hello world.txt", 0).unwrap(), "hello_world.txt");
}

#[test]
fn test_slice_rule() {
    let rule = RenameRule::Slice {
        start: 0,
        end: Some(5),
        replacement: "new".to_string(),
    };

    assert_eq!(rule.apply_to_filename("hello_world.txt", 0).unwrap(), "new_world.txt");
}

#[test]
fn test_extension_rule() {
    let rule = RenameRule::Extension {
        new_extension: Some("pdf".to_string()),
        keep_original: false,
    };

    assert_eq!(rule.apply_to_filename("document.txt", 0).unwrap(), "document.pdf");

    let rule = RenameRule::Extension {
        new_extension: None,
        keep_original: false,
    };

    assert_eq!(rule.apply_to_filename("document.txt", 0).unwrap(), "document");
}

#[test]
fn test_invalid_chars() {
    assert!(has_invalid_chars("file<name>.txt"));
    assert!(has_invalid_chars("file|name.txt"));
    assert!(!has_invalid_chars("filename.txt"));
}

#[test]
fn invalid_chars_control_and_reserved() {
    assert!(has_invalid_chars("a\tb.txt"));
    assert!(has_invalid_chars("a/b"));
    assert!(has_invalid_chars("what?.txt"));
    assert!(has_invalid_chars("star*.txt"));
    assert!(has_invalid_chars("q\"uote"));
    assert!(!has_invalid_chars(""));
    assert!(!has_invalid_chars("été 2024.txt"));
    assert!(has_invalid_chars("del\u{7f}.txt"));
    assert!(has_invalid_chars("\u{85}next"));
    assert!(has_invalid_chars("x\u{9f}"));
    assert!(!has_invalid_chars("x\u{a0}y"));
}

#[test]
fn split_uses_last_dot() {
    assert_eq!(split_filename("archive.tar.gz"), ("archive.tar".to_string(), ".gz".to_string()));
    assert_eq!(split_filename("README"), ("README".to_string(), String::new()));
    assert_eq!(split_filename(".bashrc"), (String::new(), ".bashrc".to_string()));
    assert_eq!(split_filename("name."), ("name".to_string(), ".".to_string()));
}

#[test]
fn replace_all_occurrences_case_sensitive() {
    let rule = RenameRule::Replace {
        find: "a".to_string(),
        replace: "xy".to_string(),
        regex: false,
        case_sensitive: true,
    };
    assert_eq!(apply(&rule, "banana.a", 0), "bxynxynxy.xy");
    assert_eq!(apply(&rule, "BANANA", 0), "BANANA");
}

#[test]
fn replace_without_match_is_identity() {
    for regex in [false, true] {
        let rule = RenameRule::Replace {
            find: "zz".to_string(),
            replace: "Q".to_string(),
            regex,
            case_sensitive: true,
        };
        for name in ["", "a.txt", "z.z", "ZZ.txt", "photo 01.jpg"] {
            assert_eq!(apply(&rule, name, 3), name);
        }
    }
}

#[test]
fn replace_case_insensitive_first_only() {
    let rule = RenameRule::Replace {
        find: "IMG_".to_string(),
        replace: "Photo_".to_string(),
        regex: false,
        case_sensitive: false,
    };
    assert_eq!(apply(&rule, "img_001_IMG_.JPG", 0), "Photo_001_IMG_.JPG");
    assert_eq!(apply(&rule, "none.jpg", 0), "none.jpg");
}

#[test]
fn replace_regex_flag_reads_find_literally() {
    let rule = RenameRule::Replace {
        find: "AB".to_string(),
        replace: "X".to_string(),
        regex: true,
        case_sensitive: false,
    };
    assert_eq!(apply(&rule, "Ab_aB.TXT", 0), "X_aB.TXT");
    let rule = RenameRule::Replace {
        find: "b".to_string(),
        replace: "x".to_string(),
        regex: true,
        case_sensitive: false,
    };
    assert_eq!(apply(&rule, "ABC.txt", 0), "AxC.txt");
    let rule = RenameRule::Replace {
        find: "a.".to_string(),
        replace: "-".to_string(),
        regex: true,
        case_sensitive: true,
    };
    assert_eq!(apply(&rule, "a.a.ab", 0), "--ab");
}

#[test]
fn replace_empty_find_inserts_everywhere() {
    let rule = RenameRule::Replace {
        find: String::new(),
        replace: "-".to_string(),
        regex: false,
        case_sensitive: true,
    };
    assert_eq!(apply(&rule, "ab", 0), "-a-b-");
    assert_eq!(rule.validate(), Err("find text must not be empty".to_string()));
}

#[test]
fn sequence_width_and_step() {
    let rule = RenameRule::Sequence { start: 10, step: 5, width: 1, order: "current".to_string() };
    assert_eq!(apply(&rule, "a.b.c", 0), "a.b_10.c");
    assert_eq!(apply(&rule, "a.b.c", 3), "a.b_25.c");
    assert_eq!(apply(&rule, "noext", 1), "noext_15");
    let wide = RenameRule::Sequence { start: 7, step: 1, width: 10, order: "current".to_string() };
    assert_eq!(apply(&wide, "x.y", 0), "x_0000000007.y");
}

#[test]
fn sequence_negative_start_is_signed() {
    let rule = RenameRule::Sequence { start: -5, step: 1, width: 3, order: "current".to_string() };
    assert_eq!(apply(&rule, "photo.jpg", 0), "photo_-05.jpg");
    assert_eq!(apply(&rule, "photo.jpg", 7), "photo_002.jpg");
}

#[test]
fn sequence_large_values_do_not_overflow() {
    let rule = RenameRule::Sequence { start: i64::MAX, step: i64::MAX, width: 1, order: "current".to_string() };
    let expected = (i64::MAX as i128) + 2 * (i64::MAX as i128);
    assert_eq!(apply(&rule, "f", 2), format!("f_{}", expected));
}

#[test]
fn sequence_names_are_distinct_across_batch() {
    let rule = RenameRule::Sequence { start: 0, step: 3, width: 1, order: "current".to_string() };
    let names: Vec<String> = (0..40).map(|i| apply(&rule, "photo.jpg", i)).collect();
    for i in 0..names.len() {
        for j in 0..names.len() {
            if i != j {
                assert_ne!(names[i], names[j]);
            }
        }
    }
}

#[test]
fn slice_negative_and_open_end() {
    let rule = RenameRule::Slice { start: -5, end: None, replacement: "X".to_string() };
    assert_eq!(apply(&rule, "hello_world.txt", 0), "hello_X.txt");
    let rule = RenameRule::Slice { start: 2, end: Some(-1), replacement: String::new() };
    assert_eq!(apply(&rule, "abcdef.txt", 0), "abf.txt");
    let rule = RenameRule::Slice { start: 0, end: Some(100), replacement: "Z".to_string() };
    assert_eq!(apply(&rule, "abc.txt", 0), "Z.txt");
}

#[test]
fn slice_counts_characters_not_bytes() {
    let rule = RenameRule::Slice { start: 1, end: Some(3), replacement: "-".to_string() };
    assert_eq!(apply(&rule, "ééééé.txt", 0), "é-éé.txt");
}

#[test]
fn slice_start_after_end_fails() {
    let rule = RenameRule::Slice { start: 3, end: Some(-1), replacement: "x".to_string() };
    assert!(rule.validate().is_ok());
    assert_eq!(
        rule.apply_to_filename("ab.txt", 0),
        Err("slice start lies after its end".to_string())
    );
}

#[test]
fn slice_round_trip_restores_name() {
    let name = "hello_world.txt";
    let rule = RenameRule::Slice { start: 0, end: Some(5), replacement: "new".to_string() };
    let renamed = apply(&rule, name, 0);
    assert_eq!(renamed, "new_world.txt");
    let inverse = RenameRule::Slice { start: 0, end: Some(3), replacement: "hello".to_string() };
    assert_eq!(apply(&inverse, &renamed, 0), name);

    let rule = RenameRule::Slice { start: -3, end: Some(-1), replacement: "XYZW".to_string() };
    let renamed = apply(&rule, "abcdefg.md", 0);
    assert_eq!(renamed, "abcdXYZWg.md");
    let inverse = RenameRule::Slice { start: 4, end: Some(8), replacement: "ef".to_string() };
    assert_eq!(apply(&inverse, &renamed, 0), "abcdefg.md");
}

#[test]
fn case_modes() {
    let title = RenameRule::Case { mode: "title".to_string() };
    assert_eq!(apply(&title, "hELLO wORLD-foo2bar.TXT", 0), "Hello World-Foo2Bar.TXT");
    let lower = RenameRule::Case { mode: "lower".to_string() };
    assert_eq!(apply(&lower, "ABC DEF.TXT", 0), "abc def.TXT");
    let kebab = RenameRule::Case { mode: "kebab".to_string() };
    assert_eq!(apply(&kebab, "My_File Name-x.Md", 0), "my-file-name-x.Md");
    let snake = RenameRule::Case { mode: "snake".to_string() };
    assert_eq!(apply(&snake, "My-File\tName.Md", 0), "my_file_name.Md");
    let upper = RenameRule::Case { mode: "upper".to_string() };
    assert_eq!(apply(&upper, "straße.txt", 0), "STRASSE.txt");
}

#[test]
fn case_unknown_mode_fails() {
    let rule = RenameRule::Case { mode: "camel".to_string() };
    assert_eq!(rule.apply_to_filename("a.txt", 0), Err("unsupported case mode: camel".to_string()));
    assert_eq!(rule.validate(), Err("unsupported case mode".to_string()));
}

#[test]
fn extension_keep_and_strip() {
    let keep = RenameRule::Extension { new_extension: Some("pdf".to_string()), keep_original: true };
    assert_eq!(apply(&keep, "document.txt", 0), "document.txt");
    let strip = RenameRule::Extension { new_extension: Some(String::new()), keep_original: false };
    assert_eq!(apply(&strip, "document.txt", 0), "document");
    let add = RenameRule::Extension { new_extension: Some("md".to_string()), keep_original: false };
    assert_eq!(apply(&add, "README", 0), "README.md");
    assert_eq!(apply(&add, "a.b.c", 0), "a.b.md");
}

#[test]
fn validation_accepts_valid_rules() {
    let rules = [
        RenameRule::Replace { find: "a".to_string(), replace: String::new(), regex: false, case_sensitive: false },
        RenameRule::Sequence { start: 0, step: 1, width: 10, order: "current".to_string() },
        RenameRule::Slice { start: -255, end: Some(-1), replacement: String::new() },
        RenameRule::Slice { start: 255, end: None, replacement: String::new() },
        RenameRule::Case { mode: "kebab".to_string() },
        RenameRule::Extension { new_extension: None, keep_original: true },
        RenameRule::Extension { new_extension: Some("mp4".to_string()), keep_original: false },
    ];
    for rule in rules.iter() {
        assert_eq!(rule.validate(), Ok(()));
    }
}

#[test]
fn validation_errors() {
    let cases = [
        (RenameRule::Sequence { start: -1, step: 1, width: 2, order: String::new() }, "start number must not be negative"),
        (RenameRule::Sequence { start: 0, step: 0, width: 2, order: String::new() }, "step must be greater than zero"),
        (RenameRule::Sequence { start: 0, step: 1, width: 0, order: String::new() }, "width must be between 1 and 10"),
        (RenameRule::Sequence { start: 0, step: 1, width: 11, order: String::new() }, "width must be between 1 and 10"),
        (RenameRule::Slice { start: 256, end: None, replacement: String::new() }, "start position is out of range"),
        (RenameRule::Slice { start: -256, end: None, replacement: String::new() }, "start position is out of range"),
        (RenameRule::Slice { start: 0, end: Some(300), replacement: String::new() }, "end position is out of range"),
        (RenameRule::Slice { start: 4, end: Some(4), replacement: String::new() }, "end position must be after start position"),
        (RenameRule::Slice { start: 4, end: Some(-2), replacement: String::new() }, "end position must be after start position"),
        (RenameRule::Extension { new_extension: None, keep_original: false }, "a new extension is required unless the original one is kept"),
        (RenameRule::Extension { new_extension: Some(String::new()), keep_original: false }, "a new extension is required unless the original one is kept"),
        (RenameRule::Extension { new_extension: Some("p-f".to_string()), keep_original: false }, "the extension may only hold letters and digits"),
    ];
    for (rule, message) in cases.iter() {
        assert_eq!(rule.validate(), Err(message.to_string()));
    }
}

#[test]
fn conflicts_ignore_case_and_are_symmetric() {
    let names: Vec<String> = ["A.txt", "b.txt", "a.TXT", "c.txt", "B.TXT"].iter().map(|s| s.to_string()).collect();
    assert_eq!(detect_conflicts(&names), vec![true, true, true, false, true]);
    let distinct: Vec<String> = ["a", "b", "c.txt", "C.txt2"].iter().map(|s| s.to_string()).collect();
    assert_eq!(detect_conflicts(&distinct), vec![false; 4]);
    assert_eq!(detect_conflicts(&[]), Vec::<bool>::new());
}
