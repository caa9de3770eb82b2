use png_sequence_gif::sequence::{analyze_sequence, analyze_stems, SequenceInfo};

fn paths(names: &[&str]) -> Vec<String> {
    names.iter().map(|n| n.to_string()).collect()
}

fn error_of(info: &SequenceInfo) -> String {
    assert!(!info.valid);
    assert_eq!(info.pattern, "");
    assert_eq!(info.frame_count, 0);
    assert_eq!(info.start_number, 0);
    info.error.clone().expect("a failed analysis carries a message")
}

#[test]
fn five_padded_frames_form_a_sequence() {
    let info = analyze_sequence(paths(&[
        "/tmp/shots/shot_001.png",
        "/tmp/shots/shot_002.png",
        "/tmp/shots/shot_003.png",
        "/tmp/shots/shot_004.png",
        "/tmp/shots/shot_005.png",
    ]));
    assert!(info.valid);
    assert_eq!(info.pattern, "shot_%03d.png");
    assert_eq!(info.start_number, 1);
    assert_eq!(info.frame_count, 5);
    assert_eq!(info.prefix, "shot_");
    assert_eq!(info.directory, "/tmp/shots");
    assert_eq!(info.error, None);
}

#[test]
fn order_of_input_does_not_matter() {
    let info = analyze_sequence(paths(&["d/f_12.png", "d/f_10.png", "d/f_11.png"]));
    assert!(info.valid);
    assert_eq!(info.start_number, 10);
    assert_eq!(info.frame_count, 3);
    assert_eq!(info.pattern, "f_%02d.png");
}

#[test]
fn unpadded_numbers_give_plain_placeholder() {
    let info = analyze_sequence(paths(&["/a/frame_1.png", "/a/frame_2.png", "/a/frame_3.png"]));
    assert!(info.valid);
    assert_eq!(info.pattern, "frame_%d.png");
}

#[test]
fn wide_padding_gives_matching_placeholder() {
    let info = analyze_sequence(paths(&["/a/x0009.png", "/a/x0010.png"]));
    assert!(info.valid);
    assert_eq!(info.pattern, "x%04d.png");
    assert_eq!(info.prefix, "x");
    assert_eq!(info.start_number, 9);
}

#[test]
fn gap_is_reported_with_missing_frames() {
    let info = analyze_sequence(paths(&[
        "/s/frame_1.png",
        "/s/frame_2.png",
        "/s/frame_4.png",
        "/s/frame_5.png",
    ]));
    assert_eq!(
        error_of(&info),
        "Sequence has gaps. Missing frames: 3. Found 4 frames but expected 5 (1\u{2013}5)"
    );
}

#[test]
fn several_missing_frames_are_listed() {
    let info = analyze_sequence(paths(&["/s/f_01.png", "/s/f_05.png"]));
    assert_eq!(
        error_of(&info),
        "Sequence has gaps. Missing frames: 2, 3, 4. Found 2 frames but expected 5 (1\u{2013}5)"
    );
}

#[test]
fn mixed_padding_is_rejected() {
    let info = analyze_sequence(paths(&["/s/frame_1.png", "/s/frame_02.png"]));
    assert_eq!(
        error_of(&info),
        "Inconsistent padding detected. All frame numbers must have the same padding (e.g., all 001, 002, 003 or all 1, 2, 3)"
    );
}

#[test]
fn different_prefix_names_the_file() {
    let info = analyze_sequence(paths(&["/s/a_01.png", "/s/b_02.png"]));
    assert_eq!(
        error_of(&info),
        "Files have different prefixes. Expected 'a_' but found 'b_02'"
    );
}

#[test]
fn no_png_files() {
    let info = analyze_sequence(paths(&["/s/a_01.jpg", "/s/a_02.PNG"]));
    assert_eq!(error_of(&info), "No PNG files found");
    let empty = analyze_sequence(Vec::new());
    assert_eq!(error_of(&empty), "No PNG files found");
}

#[test]
fn one_png_file_is_too_few() {
    let info = analyze_sequence(paths(&["/s/a_01.png", "/s/a_02.gif"]));
    assert_eq!(error_of(&info), "Need at least 2 PNG files for a sequence");
}

#[test]
fn names_without_numbers_are_rejected() {
    let info = analyze_sequence(paths(&["/s/alpha.png", "/s/beta.png"]));
    assert_eq!(
        error_of(&info),
        "Could not detect numbering pattern. Files must end with numbers (e.g., frame_001.png)"
    );
}

#[test]
fn number_too_large_is_rejected() {
    let info = analyze_sequence(paths(&[
        "/s/a_00000000000000000001.png",
        "/s/a_99999999999999999999.png",
    ]));
    assert_eq!(
        error_of(&info),
        "Invalid frame number in 'a_99999999999999999999'"
    );
}

#[test]
fn non_digit_suffix_is_an_invalid_number() {
    let info = analyze_sequence(paths(&["/s/a_01.png", "/s/a_x1.png"]));
    assert_eq!(error_of(&info), "Invalid frame number in 'a_x1'");
}

#[test]
fn signed_suffix_is_an_invalid_number() {
    let info = analyze_sequence(paths(&["/d/f_05.png", "/d/f_+6.png"]));
    assert_eq!(error_of(&info), "Invalid frame number in 'f_+6'");
    let other_order = analyze_sequence(paths(&["/d/f_+6.png", "/d/f_05.png"]));
    assert!(!other_order.valid);
}

#[test]
fn duplicate_that_hides_a_gap_passes_count_check() {
    let info = analyze_sequence(paths(&["/s/a_1.png", "/s/a_1.png", "/s/a_3.png"]));
    assert!(info.valid);
    assert_eq!(info.frame_count, 3);
    assert_eq!(info.start_number, 1);
}

#[test]
fn duplicate_without_gap_reports_empty_missing_list() {
    let info = analyze_sequence(paths(&["/s/a_1.png", "/s/a_1.png"]));
    assert_eq!(
        error_of(&info),
        "Sequence has gaps. Missing frames: . Found 2 frames but expected 1 (1\u{2013}1)"
    );
}

#[test]
fn directory_comes_from_first_file_only() {
    let info = analyze_sequence(paths(&["/one/a_1.png", "/two/a_2.png"]));
    assert!(info.valid);
    assert_eq!(info.directory, "/one");
}

#[test]
fn relative_names_have_empty_directory() {
    let info = analyze_sequence(paths(&["a_1.png", "a_2.png"]));
    assert!(info.valid);
    assert_eq!(info.directory, "");
    assert_eq!(info.pattern, "a_%d.png");
}

#[test]
fn analysis_is_repeatable() {
    let input = paths(&["/s/f_1.png", "/s/f_2.png", "/s/f_4.png"]);
    let a = analyze_sequence(input.clone());
    let b = analyze_sequence(input);
    assert_eq!(a.valid, b.valid);
    assert_eq!(a.error, b.error);
    assert_eq!(a.pattern, b.pattern);
}

#[test]
fn stems_without_directory_fail() {
    let info = analyze_stems(None, vec![Some("a_1".to_string()), Some("a_2".to_string())]);
    assert_eq!(error_of(&info), "Could not determine directory");
}

#[test]
fn missing_stem_is_an_invalid_filename() {
    let info = analyze_stems(Some("/d".to_string()), vec![Some("a_1".to_string()), None]);
    assert_eq!(error_of(&info), "Invalid filename");
    let first = analyze_stems(Some("/d".to_string()), vec![None, Some("a_1".to_string())]);
    assert_eq!(error_of(&first), "Invalid filename");
}

#[test]
fn stems_form_a_sequence() {
    let info = analyze_stems(
        Some("/d".to_string()),
        vec![Some("img07".to_string()), Some("img08".to_string())],
    );
    assert!(info.valid);
    assert_eq!(info.pattern, "img%02d.png");
    assert_eq!(info.directory, "/d");
    assert_eq!(info.start_number, 7);
    assert_eq!(info.frame_count, 2);
}
