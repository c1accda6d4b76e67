use ffstudio::chain::{prepare_chain, prepare_stage, StageInput};
use ffstudio::command::split_command;

#[test]
fn plain_commands_split_on_whitespace() {
    let toks = split_command("ffmpeg -i in.mp4 out.mp4").unwrap();
    assert_eq!(toks, vec!["ffmpeg", "-i", "in.mp4", "out.mp4"]);
}

#[test]
fn quoted_segments_keep_their_spaces() {
    let toks = split_command("ffmpeg -i \"my input.mp4\" out.mp4").unwrap();
    assert_eq!(toks, vec!["ffmpeg", "-i", "my input.mp4", "out.mp4"]);
}

#[test]
fn backslashes_are_ordinary_characters() {
    let toks = split_command("ffmpeg -i C:\\media\\in.mp4").unwrap();
    assert_eq!(toks, vec!["ffmpeg", "-i", "C:\\media\\in.mp4"]);
}

#[test]
fn a_quote_abutting_text_extends_the_same_token() {
    let toks = split_command("ffmpeg -vf --filter=\"a b\" out.mp4").unwrap();
    assert_eq!(toks, vec!["ffmpeg", "-vf", "--filter=a b", "out.mp4"]);
    let toks = split_command("\"a b\"cd").unwrap();
    assert_eq!(toks, vec!["a bcd"]);
    let toks = split_command("x\"y\"\"z\"").unwrap();
    assert_eq!(toks, vec!["xyz"]);
}

#[test]
fn an_empty_quoted_pair_is_an_empty_token() {
    let toks = split_command("prog \"\" tail").unwrap();
    assert_eq!(toks, vec!["prog", "", "tail"]);
}

#[test]
fn an_unclosed_quote_is_an_error() {
    assert!(split_command("ffmpeg -i \"broken.mp4").is_none());
}

#[test]
fn tabs_and_repeated_spaces_separate_tokens() {
    let toks = split_command("  a \t b   c ").unwrap();
    assert_eq!(toks, vec!["a", "b", "c"]);
}

#[test]
fn prepared_stage_appends_instrumentation_arguments() {
    let st = prepare_stage("ffmpeg -i in.mp4 out.mp4", "", true).unwrap();
    assert_eq!(st.program, "ffmpeg");
    assert_eq!(
        st.args,
        vec!["-i", "in.mp4", "out.mp4", "-progress", "pipe:2", "-hide_banner"]
    );
    assert_eq!(st.input, StageInput::Null);
}

#[test]
fn stage_environment_comes_from_its_block_alone() {
    let st = prepare_stage("prog", "PATH=/opt/bin\nLANG=C\n", true).unwrap();
    let mut env: Vec<(String, String)> = st
        .env
        .iter()
        .map(|e| (e.key.clone(), e.value.clone()))
        .collect();
    env.sort();
    assert_eq!(
        env,
        vec![
            ("LANG".to_string(), "C".to_string()),
            ("PATH".to_string(), "/opt/bin".to_string())
        ]
    );
}

#[test]
fn an_empty_command_cannot_be_prepared() {
    assert!(prepare_stage("", "", true).is_none());
    assert!(prepare_stage("   ", "", true).is_none());
}

#[test]
fn chain_wires_each_stage_to_the_previous_output() {
    let cmds = vec!["producer a".to_string(), "filter b".to_string(), "consumer c".to_string()];
    let envs = vec![String::new(), String::new(), String::new()];
    let stages = prepare_chain(&cmds, &envs).unwrap();
    assert_eq!(stages.len(), 3);
    assert_eq!(stages[0].input, StageInput::Null);
    assert_eq!(stages[1].input, StageInput::PrevOutput);
    assert_eq!(stages[2].input, StageInput::PrevOutput);
}

#[test]
fn chain_preparation_stops_at_the_first_bad_stage() {
    let cmds = vec!["good one".to_string(), "\"bad".to_string(), "never".to_string()];
    let envs = vec![String::new(), String::new(), String::new()];
    let err = prepare_chain(&cmds, &envs).unwrap_err();
    assert_eq!(err.stage, 1);
}
