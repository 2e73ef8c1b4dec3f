use eval_search::entry::{
    matching_samples_in_log, sample_id_and_epoch_from_filename, EntryNameError,
};
use eval_search::filter::IntFilter;
use eval_search::pattern::Pattern;

fn found(id: &str, epoch: u32) -> Result<Option<(String, u32)>, EntryNameError> {
    Ok(Some((id.to_string(), epoch)))
}

#[test]
fn plain_name_gives_id_and_epoch() {
    assert_eq!(sample_id_and_epoch_from_filename("samples/abc123_epoch_2.json"), found("abc123", 2));
}

#[test]
fn id_may_hold_the_marker() {
    assert_eq!(
        sample_id_and_epoch_from_filename("samples/x_epoch_epoch_10.json"),
        found("x_epoch", 10)
    );
    assert_eq!(
        sample_id_and_epoch_from_filename("samples/a_epoch_1_epoch_2.json"),
        found("a_epoch_1", 2)
    );
}

#[test]
fn other_files_are_no_samples() {
    for name in [
        "readme.txt",
        "",
        "samples/",
        "samples/.json",
        "header.json",
        "samples/abc_epoch_.json",
        "samples/abc_epoch_x1.json",
        "samples/abc_epoch_1x.json",
        "samples/abc_epoch1.json",
        "samples/abcepoch_1.json",
        "samples/abc_epoch_1.jsonl",
        "samples/abc_epoch_1.json ",
        "xsamples/abc_epoch_1.json",
        "Samples/abc_epoch_1.json",
        "samples/abc_epoch_-1.json",
        "samples/abc_epoch_+1.json",
        "samples/abc_epoch_1.JSON",
        "samples/_epoch1.json",
        "samples/epoch_1.json",
    ] {
        assert_eq!(sample_id_and_epoch_from_filename(name), Ok(None), "{:?}", name);
    }
}

#[test]
fn empty_id_is_an_id() {
    assert_eq!(sample_id_and_epoch_from_filename("samples/_epoch_1.json"), found("", 1));
}

#[test]
fn id_is_taken_as_it_stands() {
    assert_eq!(
        sample_id_and_epoch_from_filename("samples/dir/säm ple_7_epoch_3.json"),
        found("dir/säm ple_7", 3)
    );
    assert_eq!(sample_id_and_epoch_from_filename("samples/12_epoch_34.json"), found("12", 34));
}

#[test]
fn leading_zeros_do_not_count() {
    assert_eq!(sample_id_and_epoch_from_filename("samples/a_epoch_007.json"), found("a", 7));
    assert_eq!(
        sample_id_and_epoch_from_filename("samples/a_epoch_00000000000000000001.json"),
        found("a", 1)
    );
    assert_eq!(sample_id_and_epoch_from_filename("samples/a_epoch_0.json"), found("a", 0));
}

#[test]
fn largest_epoch_fits() {
    assert_eq!(
        sample_id_and_epoch_from_filename("samples/a_epoch_4294967295.json"),
        found("a", 4294967295)
    );
}

#[test]
fn epoch_beyond_32_bits_is_an_error() {
    assert_eq!(
        sample_id_and_epoch_from_filename("samples/a_epoch_4294967296.json"),
        Err(EntryNameError::EpochOutOfRange)
    );
    assert_eq!(
        sample_id_and_epoch_from_filename("samples/a_epoch_99999999999999999999999999.json"),
        Err(EntryNameError::EpochOutOfRange)
    );
}

fn names(list: &[&str]) -> Vec<String> {
    list.iter().map(|s| s.to_string()).collect()
}

#[test]
fn selection_keeps_order_and_skips_other_entries() {
    let entries = names(&[
        "header.json",
        "samples/b_epoch_2.json",
        "samples/",
        "samples/a_epoch_1.json",
        "samples/a_epoch_2.json",
        "reductions.json",
    ]);
    let all = IntFilter::from_str("all").unwrap();
    let chosen = matching_samples_in_log("logs/run.eval", &entries, &None, &all);
    let got: Vec<(String, String, u32)> = chosen
        .selected
        .iter()
        .map(|l| (l.entry_name.clone(), l.sample_id.clone(), l.epoch))
        .collect();
    assert_eq!(
        got,
        vec![
            ("samples/b_epoch_2.json".to_string(), "b".to_string(), 2),
            ("samples/a_epoch_1.json".to_string(), "a".to_string(), 1),
            ("samples/a_epoch_2.json".to_string(), "a".to_string(), 2),
        ]
    );
    assert!(chosen.selected.iter().all(|l| l.archive_path == "logs/run.eval"));
    assert!(chosen.out_of_range.is_empty());
}

#[test]
fn selection_applies_both_filters() {
    let entries = names(&[
        "samples/alpha_epoch_1.json",
        "samples/alpha_epoch_2.json",
        "samples/beta_epoch_2.json",
        "samples/alphabet_epoch_3.json",
    ]);
    let epochs = IntFilter::from_str("2-3").unwrap();
    let ids = Some(Pattern::new("^alpha").unwrap());
    let chosen = matching_samples_in_log("x.eval", &entries, &ids, &epochs);
    let got: Vec<&str> = chosen.selected.iter().map(|l| l.entry_name.as_str()).collect();
    assert_eq!(got, vec!["samples/alpha_epoch_2.json", "samples/alphabet_epoch_3.json"]);
}

#[test]
fn sample_pattern_matches_anywhere_in_the_id() {
    let entries = names(&["samples/xx_mid_yy_epoch_1.json", "samples/other_epoch_1.json"]);
    let all = IntFilter::from_str("all").unwrap();
    let ids = Some(Pattern::new("mid").unwrap());
    let chosen = matching_samples_in_log("x.eval", &entries, &ids, &all);
    assert_eq!(chosen.selected.len(), 1);
    assert_eq!(chosen.selected[0].sample_id, "xx_mid_yy");
}

#[test]
fn entry_out_of_range_is_reported_and_does_not_stop_the_rest() {
    let entries = names(&[
        "samples/a_epoch_1.json",
        "samples/big_epoch_4294967296.json",
        "samples/b_epoch_1.json",
    ]);
    let all = IntFilter::from_str("all").unwrap();
    let chosen = matching_samples_in_log("x.eval", &entries, &None, &all);
    let got: Vec<&str> = chosen.selected.iter().map(|l| l.sample_id.as_str()).collect();
    assert_eq!(got, vec!["a", "b"]);
    assert_eq!(chosen.out_of_range, vec!["samples/big_epoch_4294967296.json".to_string()]);
}
