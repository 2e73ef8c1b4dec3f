use eval_search::entry::matching_samples_in_log;
use eval_search::filter::{IntFilter, MessageFilter};
use eval_search::pattern::Pattern;
use eval_search::render::{render_sample, MessageBlock};
use eval_search::role::ChatMessageRole;
use eval_search::search::read_sample_filtered;

/// An archive held in memory: its path, and its entries by name.
struct Archive {
    path: &'static str,
    entries: Vec<(&'static str, &'static str)>,
}

fn base_name(path: &str) -> &str {
    path.rsplit('/').next().unwrap()
}

fn search(
    archives: &[&Archive],
    epochs: &str,
    samples: Option<&str>,
    roles: Option<Vec<ChatMessageRole>>,
    content: Option<&str>,
) -> Vec<MessageBlock> {
    let epochs = IntFilter::from_str(epochs).unwrap();
    let samples = samples.map(|s| Pattern::new(s).unwrap());
    let highlight = content.map(|s| Pattern::new(s).unwrap());
    let filter = MessageFilter { roles, pattern: content.map(|s| Pattern::new(s).unwrap()) };
    let mut blocks = Vec::new();
    for archive in archives {
        let names: Vec<String> = archive.entries.iter().map(|(n, _)| n.to_string()).collect();
        let selection = matching_samples_in_log(archive.path, &names, &samples, &epochs);
        for locator in &selection.selected {
            let text = archive.entries.iter().find(|(n, _)| *n == locator.entry_name).unwrap().1;
            let sample = read_sample_filtered(text.as_bytes(), &filter).unwrap();
            blocks.extend(render_sample(base_name(&locator.archive_path), &sample, &highlight));
        }
    }
    blocks
}

#[test]
fn content_pattern_picks_the_one_message_that_holds_it() {
    let archive = Archive {
        path: "logs/one.eval",
        entries: vec![
            ("header.json", r#"{"eval": {}}"#),
            (
                "samples/s1_epoch_1.json",
                r#"{"id": "s1", "epoch": 1, "messages": [{"role": "user", "content": "hello world"}, {"role": "assistant", "content": "hi"}]}"#,
            ),
        ],
    };
    let blocks = search(&[&archive], "all", None, None, Some("world"));
    assert_eq!(blocks.len(), 1);
    assert_eq!(blocks[0].role, ChatMessageRole::User);
    assert_eq!(blocks[0].content, "hello world");
    assert_eq!(blocks[0].file_name, "one.eval");
    assert_eq!(blocks[0].sample_id, "s1");
    assert_eq!(blocks[0].epoch, 1);
    assert_eq!(blocks[0].highlights, vec![(6, 11)]);
}

fn two_archives() -> (Archive, Archive) {
    (
        Archive {
            path: "logs/first.eval",
            entries: vec![(
                "samples/s_epoch_1.json",
                r#"{"id": "s", "epoch": 1, "messages": [{"role": "user", "content": "from epoch one"}]}"#,
            )],
        },
        Archive {
            path: "logs/second.eval",
            entries: vec![(
                "samples/s_epoch_2.json",
                r#"{"id": "s", "epoch": 2, "messages": [{"role": "user", "content": "from epoch two"}]}"#,
            )],
        },
    )
}

#[test]
fn epoch_filter_leaves_only_the_entry_of_that_epoch() {
    let (first, second) = two_archives();
    for order in [[&first, &second], [&second, &first]] {
        let blocks = search(&order, "2-2", None, None, None);
        assert_eq!(blocks.len(), 1);
        assert_eq!(blocks[0].file_name, "second.eval");
        assert_eq!(blocks[0].epoch, 2);
        assert_eq!(blocks[0].content, "from epoch two");
    }
}

fn sorted(mut blocks: Vec<MessageBlock>) -> Vec<String> {
    let mut keys: Vec<String> = blocks.drain(..).map(|b| format!("{:?}", b)).collect();
    keys.sort();
    keys
}

#[test]
fn order_of_the_files_does_not_change_what_is_found() {
    let (first, second) = two_archives();
    let forward = search(&[&first, &second], "all", None, None, Some("epoch"));
    let backward = search(&[&second, &first], "all", None, None, Some("epoch"));
    assert_eq!(forward.len(), 2);
    assert_eq!(sorted(forward), sorted(backward));
}

#[test]
fn role_filter_and_sample_filter_work_together() {
    let archive = Archive {
        path: "run.eval",
        entries: vec![
            (
                "samples/keep_epoch_1.json",
                r#"{"id": "keep", "epoch": 1, "messages": [{"role": "system", "content": "a"}, {"role": "tool", "content": "b"}, {"role": "tool", "content": "c"}]}"#,
            ),
            (
                "samples/drop_epoch_1.json",
                r#"{"id": "drop", "epoch": 1, "messages": [{"role": "tool", "content": "d"}]}"#,
            ),
        ],
    };
    let blocks = search(&[&archive], "1", Some("^keep$"), Some(vec![ChatMessageRole::Tool]), None);
    let contents: Vec<&str> = blocks.iter().map(|b| b.content.as_str()).collect();
    assert_eq!(contents, vec!["b", "c"]);
}
