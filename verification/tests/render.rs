use eval_search::pattern::{Pattern, PatternError};
use eval_search::record::{ChatMessage, EvalSample};
use eval_search::render::{
    both_absent, collapsed, display_message, render_sample, segments, MessageBlock, Segment,
};
use eval_search::role::{ChatMessageRole, RoleColor};

fn message(role: ChatMessageRole, content: &str) -> ChatMessage {
    ChatMessage { role, content: content.to_string() }
}

fn sample(messages: Vec<Option<ChatMessage>>) -> EvalSample {
    EvalSample { id: "s1".to_string(), epoch: 4, messages }
}

#[test]
fn role_tokens() {
    assert_eq!(ChatMessageRole::System.to_string(), "system");
    assert_eq!(ChatMessageRole::User.to_string(), "user");
    assert_eq!(ChatMessageRole::Assistant.to_string(), "assistant");
    assert_eq!(ChatMessageRole::Tool.to_string(), "tool");
    assert_eq!(ChatMessageRole::Tool.as_str(), "tool");
}

#[test]
fn role_tokens_are_read_back() {
    for role in [
        ChatMessageRole::System,
        ChatMessageRole::User,
        ChatMessageRole::Assistant,
        ChatMessageRole::Tool,
    ] {
        assert_eq!(ChatMessageRole::from_token(role.as_str()), Some(role));
    }
    for token in ["", "System", "users", "use", " user", "bot"] {
        assert_eq!(ChatMessageRole::from_token(token), None);
    }
}

#[test]
fn each_role_has_its_own_colour() {
    assert_eq!(ChatMessageRole::System.color(), RoleColor::Magenta);
    assert_eq!(ChatMessageRole::User.color(), RoleColor::Blue);
    assert_eq!(ChatMessageRole::Assistant.color(), RoleColor::Green);
    assert_eq!(ChatMessageRole::Tool.color(), RoleColor::Yellow);
}

#[test]
fn pattern_that_does_not_compile_is_refused() {
    for source in ["foo(bar", "[a-", "*", "a{2,1}", r"\w{1000}"] {
        let out: Result<Pattern, PatternError> = Pattern::new(source);
        let error = out.err().unwrap();
        assert!(!error.message.is_empty(), "{:?}", source);
    }
}

#[test]
fn pattern_keeps_its_source_and_matches_anywhere() {
    let pattern = Pattern::new(r"w[a-z]+d").unwrap();
    assert_eq!(pattern.as_str(), r"w[a-z]+d");
    assert!(pattern.is_match("hello world"));
    assert!(!pattern.is_match("hello word?".replace("word", "w0rd").as_str()));
    assert!(!pattern.is_match(""));
}

#[test]
fn pattern_finds_each_match_from_left_to_right() {
    let pattern = Pattern::new("o").unwrap();
    assert_eq!(pattern.spans("hello world"), vec![(4, 5), (7, 8)]);
    assert_eq!(pattern.spans("xyz"), vec![]);
    let words = Pattern::new(r"\w+").unwrap();
    assert_eq!(words.spans("é où"), vec![(0, 2), (3, 6)]);
}

#[test]
fn block_names_its_source_and_its_role() {
    let block = display_message(
        ("run.eval", "s1", 4),
        &message(ChatMessageRole::Assistant, "the answer is 42"),
        &Some(Pattern::new(r"\d+").unwrap()),
    );
    assert_eq!(
        block,
        MessageBlock {
            file_name: "run.eval".to_string(),
            sample_id: "s1".to_string(),
            epoch: 4,
            role: ChatMessageRole::Assistant,
            color: RoleColor::Green,
            label: "[assistant]".to_string(),
            content: "the answer is 42".to_string(),
            highlights: vec![(14, 16)],
        }
    );
}

#[test]
fn block_without_pattern_has_no_highlights() {
    let block = display_message(("f", "s", -1), &message(ChatMessageRole::System, "abc"), &None);
    assert_eq!(block.label, "[system]");
    assert_eq!(block.color, RoleColor::Magenta);
    assert_eq!(block.epoch, -1);
    assert_eq!(block.highlights, vec![]);
}

#[test]
fn both_absent_asks_for_both() {
    let some = Some(message(ChatMessageRole::User, "x"));
    assert!(both_absent(&None, &None));
    assert!(!both_absent(&some, &None));
    assert!(!both_absent(&None, &some));
    assert!(!both_absent(&some, &some));
}

#[test]
fn run_of_gaps_becomes_one_gap() {
    let a = message(ChatMessageRole::User, "a");
    let b = message(ChatMessageRole::Tool, "b");
    let places = vec![Some(a.clone()), None, None, Some(b.clone())];
    let got: Vec<Option<ChatMessage>> = collapsed(&places).into_iter().cloned().collect();
    assert_eq!(got, vec![Some(a.clone()), None, Some(b.clone())]);

    let places = vec![None, None, None, Some(a.clone()), Some(a.clone()), None, Some(b.clone()), None, None];
    let got: Vec<Option<ChatMessage>> = collapsed(&places).into_iter().cloned().collect();
    assert_eq!(got, vec![None, Some(a.clone()), Some(a.clone()), None, Some(b.clone()), None]);

    let none: Vec<Option<ChatMessage>> = vec![];
    assert!(collapsed(&none).is_empty());
    assert_eq!(collapsed(&vec![None, None]).len(), 1);
}

#[test]
fn gap_renders_nothing_however_long_it_is() {
    let a = message(ChatMessageRole::User, "a");
    let b = message(ChatMessageRole::Assistant, "b");
    let blocks = render_sample("run.eval", &sample(vec![Some(a), None, None, Some(b)]), &None);
    assert_eq!(blocks.len(), 2);
    assert_eq!(blocks[0].content, "a");
    assert_eq!(blocks[0].label, "[user]");
    assert_eq!(blocks[1].content, "b");
    assert_eq!(blocks[1].label, "[assistant]");
    for block in &blocks {
        assert_eq!(block.file_name, "run.eval");
        assert_eq!(block.sample_id, "s1");
        assert_eq!(block.epoch, 4);
    }
}

#[test]
fn sample_with_nothing_kept_renders_nothing() {
    assert!(render_sample("f", &sample(vec![None, None, None]), &None).is_empty());
    assert!(render_sample("f", &sample(vec![]), &None).is_empty());
}

#[test]
fn equal_messages_side_by_side_are_both_rendered() {
    let a = message(ChatMessageRole::User, "same");
    let blocks = render_sample("f", &sample(vec![Some(a.clone()), Some(a.clone()), None, Some(a)]), &None);
    assert_eq!(blocks.len(), 3);
}

fn plain(start: usize, end: usize) -> Segment {
    Segment { start, end, emphasized: false }
}

fn strong(start: usize, end: usize) -> Segment {
    Segment { start, end, emphasized: true }
}

#[test]
fn content_is_cut_along_the_matches() {
    assert_eq!(
        segments(11, &vec![(4, 5), (7, 8)]),
        vec![plain(0, 4), strong(4, 5), plain(5, 7), strong(7, 8), plain(8, 11)]
    );
    assert_eq!(segments(3, &vec![(0, 3)]), vec![plain(0, 0), strong(0, 3), plain(3, 3)]);
    assert_eq!(segments(5, &vec![]), vec![plain(0, 5)]);
    assert_eq!(segments(0, &vec![]), vec![plain(0, 0)]);
    assert_eq!(segments(2, &vec![(1, 1)]), vec![plain(0, 1), strong(1, 1), plain(1, 2)]);
}

#[test]
fn match_that_does_not_fit_is_passed_over() {
    assert_eq!(segments(4, &vec![(2, 9)]), vec![plain(0, 4)]);
    assert_eq!(segments(4, &vec![(3, 2)]), vec![plain(0, 4)]);
    assert_eq!(
        segments(9, &vec![(2, 5), (4, 6), (6, 7)]),
        vec![plain(0, 2), strong(2, 5), plain(5, 6), strong(6, 7), plain(7, 9)]
    );
}

#[test]
fn pieces_put_together_are_the_content() {
    let content = "say héllo to the wörld, hello";
    let pattern = Pattern::new("h.llo|w.rld").unwrap();
    let pieces = segments(content.len(), &pattern.spans(content));
    let whole: String = pieces.iter().map(|p| &content[p.start..p.end]).collect();
    assert_eq!(whole, content);
    let strong: Vec<&str> =
        pieces.iter().filter(|p| p.emphasized).map(|p| &content[p.start..p.end]).collect();
    assert_eq!(strong, vec!["héllo", "wörld", "hello"]);
}
