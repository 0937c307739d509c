use rush::command::{Redirection, Segment, Sequencer, Stage};
use rush::parser::{parse_command, parse_pipeline, parse_stages};
use rush::token::Token;

fn w(text: &str) -> Token {
    Token::Word(text.to_string())
}

fn q(text: &str) -> Token {
    Token::Quoted(text.to_string(), false)
}

fn stage(program: &str, args: &[&str], redirection: Redirection) -> Stage {
    Stage {
        program: program.to_string(),
        args: args.iter().map(|a| a.to_string()).collect(),
        redirection,
    }
}

fn plain(program: &str, args: &[&str]) -> Stage {
    stage(program, args, Redirection::Inherit)
}

#[test]
fn command_with_arguments() {
    let tokens = vec![w("echo"), w("a"), q("b c")];
    assert_eq!(parse_command(&tokens), Some(plain("echo", &["a", "b c"])));
}

#[test]
fn command_without_words_is_none() {
    assert_eq!(parse_command(&[]), None);
    assert_eq!(parse_command(&[Token::RedirectOutTruncate]), None);
    assert_eq!(parse_command(&[Token::RedirectOutTruncate, w("f")]), None);
    assert_eq!(parse_command(&[Token::Pipe]), None);
}

#[test]
fn a_quoted_program_counts() {
    assert_eq!(parse_command(&[q("my prog"), w("x")]), Some(plain("my prog", &["x"])));
    assert_eq!(parse_command(&[q("")]), Some(plain("", &[])));
}

#[test]
fn redirect_takes_the_next_word_as_path() {
    let tokens = vec![w("echo"), w("a"), Token::RedirectOutTruncate, w("f.txt")];
    assert_eq!(
        parse_command(&tokens),
        Some(stage("echo", &["a"], Redirection::WriteStdout("f.txt".to_string(), false)))
    );
    let tokens = vec![w("echo"), Token::RedirectOutAppend, q("f.txt"), w("b")];
    assert_eq!(
        parse_command(&tokens),
        Some(stage("echo", &["b"], Redirection::WriteStdout("f.txt".to_string(), true)))
    );
    let tokens = vec![w("cmd"), Token::RedirectErrTruncate, w("e")];
    assert_eq!(
        parse_command(&tokens),
        Some(stage("cmd", &[], Redirection::WriteStderr("e".to_string(), false)))
    );
    let tokens = vec![w("cmd"), Token::RedirectErrAppend, w("e")];
    assert_eq!(
        parse_command(&tokens),
        Some(stage("cmd", &[], Redirection::WriteStderr("e".to_string(), true)))
    );
}

#[test]
fn redirect_before_the_program() {
    let tokens = vec![Token::RedirectOutTruncate, w("f"), w("echo"), w("a")];
    assert_eq!(
        parse_command(&tokens),
        Some(stage("echo", &["a"], Redirection::WriteStdout("f".to_string(), false)))
    );
}

#[test]
fn a_redirect_without_path_is_dropped() {
    let tokens = vec![w("echo"), w("a"), Token::RedirectOutTruncate];
    assert_eq!(parse_command(&tokens), Some(plain("echo", &["a"])));
    let tokens = vec![w("echo"), Token::RedirectOutTruncate, Token::RedirectOutAppend, w("f")];
    assert_eq!(
        parse_command(&tokens),
        Some(stage("echo", &[], Redirection::WriteStdout("f".to_string(), true)))
    );
    let tokens = vec![w("echo"), Token::RedirectOutTruncate, Token::And, w("f")];
    assert_eq!(parse_command(&tokens), Some(plain("echo", &["f"])));
}

#[test]
fn the_last_redirect_wins() {
    let tokens = vec![
        w("cmd"),
        Token::RedirectOutTruncate,
        w("a"),
        Token::RedirectErrAppend,
        w("b"),
    ];
    assert_eq!(
        parse_command(&tokens),
        Some(stage("cmd", &[], Redirection::WriteStderr("b".to_string(), true)))
    );
    let tokens = vec![
        w("cmd"),
        Token::RedirectErrAppend,
        w("b"),
        Token::RedirectOutTruncate,
        w("a"),
        w("x"),
    ];
    assert_eq!(
        parse_command(&tokens),
        Some(stage("cmd", &["x"], Redirection::WriteStdout("a".to_string(), false)))
    );
}

#[test]
fn a_pipe_in_the_buffer_pipes_to_next() {
    let tokens = vec![w("cmd"), Token::Pipe];
    assert_eq!(parse_command(&tokens), Some(stage("cmd", &[], Redirection::PipeToNext)));
    let tokens = vec![w("cmd"), Token::RedirectOutTruncate, w("f"), Token::Pipe];
    assert_eq!(parse_command(&tokens), Some(stage("cmd", &[], Redirection::PipeToNext)));
    let tokens = vec![w("cmd"), Token::Pipe, Token::RedirectOutTruncate, w("f")];
    assert_eq!(
        parse_command(&tokens),
        Some(stage("cmd", &[], Redirection::WriteStdout("f".to_string(), false)))
    );
}

#[test]
fn sequencers_in_the_buffer_are_ignored() {
    let tokens = vec![w("a"), Token::And, w("b"), Token::Semicolon, Token::Or];
    assert_eq!(parse_command(&tokens), Some(plain("a", &["b"])));
}

#[test]
fn stages_are_cut_at_pipes() {
    let tokens = vec![w("a"), w("x"), Token::Pipe, w("b"), Token::Pipe, w("c"), w("y")];
    assert_eq!(
        parse_stages(&tokens),
        vec![plain("a", &["x"]), plain("b", &[]), plain("c", &["y"])]
    );
    assert_eq!(parse_stages(&[]), vec![]);
}

#[test]
fn empty_parts_between_pipes_are_skipped() {
    let tokens = vec![Token::Pipe, w("a"), Token::Pipe, Token::Pipe, w("b"), Token::Pipe];
    assert_eq!(parse_stages(&tokens), vec![plain("a", &[]), plain("b", &[])]);
    let tokens = vec![w("a"), Token::Pipe, Token::RedirectOutTruncate, Token::Pipe, w("b")];
    assert_eq!(parse_stages(&tokens), vec![plain("a", &[]), plain("b", &[])]);
}

#[test]
fn a_single_command_is_one_segment() {
    let segments = parse_pipeline(vec![w("ls"), w("-l")]);
    assert_eq!(
        segments,
        vec![Segment { stages: vec![plain("ls", &["-l"])], terminator: Sequencer::End }]
    );
}

#[test]
fn no_tokens_no_segments() {
    assert_eq!(parse_pipeline(vec![]), vec![]);
}

#[test]
fn segments_carry_their_terminator() {
    let tokens = vec![
        w("a"),
        Token::And,
        w("b"),
        Token::Or,
        w("c"),
        Token::Semicolon,
        w("d"),
    ];
    assert_eq!(
        parse_pipeline(tokens),
        vec![
            Segment { stages: vec![plain("a", &[])], terminator: Sequencer::And },
            Segment { stages: vec![plain("b", &[])], terminator: Sequencer::Or },
            Segment { stages: vec![plain("c", &[])], terminator: Sequencer::Semicolon },
            Segment { stages: vec![plain("d", &[])], terminator: Sequencer::End },
        ]
    );
}

#[test]
fn a_pipeline_is_one_segment_of_several_stages() {
    let tokens = vec![
        w("cat"),
        w("f"),
        Token::Pipe,
        w("grep"),
        w("x"),
        Token::Pipe,
        w("wc"),
        Token::RedirectOutTruncate,
        w("out"),
        Token::Semicolon,
        w("echo"),
        w("done"),
    ];
    assert_eq!(
        parse_pipeline(tokens),
        vec![
            Segment {
                stages: vec![
                    plain("cat", &["f"]),
                    plain("grep", &["x"]),
                    stage("wc", &[], Redirection::WriteStdout("out".to_string(), false)),
                ],
                terminator: Sequencer::Semicolon,
            },
            Segment { stages: vec![plain("echo", &["done"])], terminator: Sequencer::End },
        ]
    );
}

#[test]
fn a_terminator_after_nothing_is_dropped() {
    assert_eq!(parse_pipeline(vec![Token::Semicolon]), vec![]);
    assert_eq!(parse_pipeline(vec![Token::And, Token::Or, Token::Semicolon]), vec![]);
    let tokens = vec![Token::Semicolon, w("a"), Token::Semicolon, Token::Semicolon, w("b")];
    assert_eq!(
        parse_pipeline(tokens),
        vec![
            Segment { stages: vec![plain("a", &[])], terminator: Sequencer::Semicolon },
            Segment { stages: vec![plain("b", &[])], terminator: Sequencer::End },
        ]
    );
}

#[test]
fn a_trailing_terminator_ends_the_last_segment() {
    let tokens = vec![w("a"), Token::And];
    assert_eq!(
        parse_pipeline(tokens),
        vec![Segment { stages: vec![plain("a", &[])], terminator: Sequencer::And }]
    );
}

#[test]
fn a_segment_of_redirects_only_is_dropped() {
    let tokens = vec![Token::RedirectOutTruncate, w("f"), Token::Semicolon, w("a")];
    assert_eq!(
        parse_pipeline(tokens),
        vec![Segment { stages: vec![plain("a", &[])], terminator: Sequencer::End }]
    );
}

#[test]
fn every_segment_has_a_stage() {
    let tokens = vec![
        Token::Pipe,
        Token::And,
        w("a"),
        Token::Pipe,
        Token::Or,
        Token::RedirectErrAppend,
        Token::Semicolon,
        w("b"),
    ];
    let segments = parse_pipeline(tokens);
    assert_eq!(segments.len(), 2);
    for segment in &segments {
        assert!(!segment.stages.is_empty());
    }
}

#[test]
fn stage_clone_is_equal() {
    let first = stage("a", &["b", "c"], Redirection::WriteStderr("e".to_string(), true));
    assert_eq!(first.clone(), first);
}
