use mmv::template_handling::{
    MatchPolicy, MoveBuilder, ParsedTarget, TemplateError, UnmatchedFileError,
};

#[test]
fn round_trip_identity_template() {
    // Composing the captures with the pattern's own literal segments and
    // the placeholders #1..#k in order reproduces the original filename.
    let pattern = "a_*_b.*";
    let filenames = vec!["a_X_b.txt".to_string(), "a_longer_b.jpg".to_string()];
    let move_builder = MoveBuilder::new(pattern, &filenames);
    let identity = ParsedTarget::new("a_#1_b.#2");
    let (originals, targets) = move_builder.build_target_names(&identity).unwrap();
    assert_eq!(originals, filenames);
    assert_eq!(targets, filenames);
}

#[test]
fn placeholder_reused_three_times() {
    // A template naming #1 three times substitutes the same captured
    // value at all three positions.
    let move_builder = MoveBuilder::new("row_*.txt", &vec!["row_7.txt".to_string()]);
    let parsed = ParsedTarget::new("#1-#1-#1");
    let (_, targets) = move_builder.build_target_names(&parsed).unwrap();
    assert_eq!(targets, vec!["7-7-7".to_string()]);
}

#[test]
fn repeated_invocations_are_identical() {
    // Same pattern, same filename order, same template: byte-identical,
    // order-preserving output on every run.
    let pattern = "/data/*_v*.log";
    let filenames = vec![
        "/data/alpha_v1.log".to_string(),
        "/data/beta_v2.log".to_string(),
        "/data/gamma_v3.log".to_string(),
    ];
    let template = "/archive/#2/#1.log";
    let first = MoveBuilder::new(pattern, &filenames)
        .build_target_names(&ParsedTarget::new(template))
        .unwrap();
    let second = MoveBuilder::new(pattern, &filenames)
        .build_target_names(&ParsedTarget::new(template))
        .unwrap();
    assert_eq!(first, second);
    assert_eq!(first.0, filenames);
}

#[test]
fn scenario_single_capture_pair() {
    let move_builder = MoveBuilder::new("a_*_b.*", &vec!["a_X_b.txt".to_string()]);
    assert_eq!(
        move_builder.asterisk_sequences,
        vec![vec!["X".to_string(), "txt".to_string()]]
    );
    let parsed = ParsedTarget::new("c_#1.#2");
    let (originals, targets) = move_builder.build_target_names(&parsed).unwrap();
    assert_eq!(originals, vec!["a_X_b.txt".to_string()]);
    assert_eq!(targets, vec!["c_X.txt".to_string()]);
}

#[test]
fn scenario_swapped_placeholders() {
    let filenames = vec!["a_X_b.txt".to_string(), "a_Y_b.jpg".to_string()];
    let move_builder = MoveBuilder::new("a_*_b.*", &filenames);
    let parsed = ParsedTarget::new("#2_#1");
    let (originals, targets) = move_builder.build_target_names(&parsed).unwrap();
    assert_eq!(originals, filenames);
    assert_eq!(targets, vec!["txt_X".to_string(), "jpg_Y".to_string()]);
}

#[test]
fn scenario_arity_error_for_whole_batch() {
    // The highest placeholder index exceeds the wildcard count: the
    // whole batch fails with the two numbers, whatever the filenames.
    let filenames = vec!["f1.txt".to_string(), "f2.txt".to_string()];
    let move_builder = MoveBuilder::new("f*.txt", &filenames);
    let parsed = ParsedTarget::new("#2.txt");
    assert_eq!(
        move_builder.build_target_names(&parsed),
        Err(TemplateError {
            asterisks: 1,
            hashes: 2
        })
    );
    // An empty batch fails too: with no capture set the available
    // wildcard count is 0.
    let empty_builder = MoveBuilder::new("f*.txt", &vec![]);
    assert_eq!(
        empty_builder.build_target_names(&parsed),
        Err(TemplateError {
            asterisks: 0,
            hashes: 2
        })
    );
}

#[test]
fn scenario_adjacent_wildcards() {
    // Adjacent wildcards degenerate to an empty capture for the first
    // of the two.
    let move_builder = MoveBuilder::new("a**b.txt", &vec!["aQb.txt".to_string()]);
    assert_eq!(
        move_builder.asterisk_sequences,
        vec![vec!["".to_string(), "Q".to_string()]]
    );
}

#[test]
fn unmatched_filename_policies_differ() {
    // A filename the pattern cannot decompose: dropped silently under
    // the skipping policy, fatal under the rejecting policy.
    let pattern = "a_*_b";
    let filenames = vec!["a_X_b".to_string(), "zzz".to_string()];
    let skipped = MoveBuilder::with_policy(pattern, &filenames, MatchPolicy::SkipUnmatched);
    let kept = skipped.unwrap();
    assert_eq!(kept.filenames, vec!["a_X_b".to_string()]);
    assert_eq!(kept.asterisk_sequences, vec![vec!["X".to_string()]]);
    assert_eq!(kept, MoveBuilder::new(pattern, &filenames));

    let rejected = MoveBuilder::with_policy(pattern, &filenames, MatchPolicy::RejectUnmatched);
    assert_eq!(
        rejected,
        Err(UnmatchedFileError {
            filename: "zzz".to_string()
        })
    );
}

#[test]
fn placeholder_zero_and_bare_hash_are_literal() {
    // #0 and a trailing # are not placeholders; they stay literal text.
    let parsed = ParsedTarget::new("#0_#1_#");
    assert_eq!(
        parsed.stable_filename_parts,
        vec!["#0_".to_string(), "_#".to_string()]
    );
    assert_eq!(parsed.template_index_sequence, vec![1]);
}

#[test]
fn no_wildcards_no_placeholders() {
    // A pattern without wildcards and a template without placeholders:
    // every filename maps to the constant template text.
    let filenames = vec!["exact.txt".to_string()];
    let move_builder = MoveBuilder::new("exact.txt", &filenames);
    assert_eq!(move_builder.asterisk_number, 0);
    let parsed = ParsedTarget::new("renamed.txt");
    let (originals, targets) = move_builder.build_target_names(&parsed).unwrap();
    assert_eq!(originals, filenames);
    assert_eq!(targets, vec!["renamed.txt".to_string()]);
}
