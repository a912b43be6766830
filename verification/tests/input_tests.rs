use nucleus::input::decide_line;
use nucleus::input::standardize_output;
use nucleus::input::Command;
use nucleus::input::InputState;
use nucleus::input::LineDecision;
use nucleus::input::Mode;
use nucleus::input::ZshColor;

#[test]
fn test_parse_commands() {
    assert!(matches!(Command::parse("/ai hello world"), Command::AiChat(s) if s == "hello world"));
    assert!(matches!(Command::parse("/edit fix this"), Command::AiEdit(s) if s == "fix this"));
    assert!(matches!(Command::parse("/add a fact"), Command::AiAdd(s) if s == "a fact"));
    assert!(matches!(Command::parse("/index ./src"), Command::AiIndex(s) if s == "./src"));
    assert!(matches!(Command::parse("/stats"), Command::AiStats));
    assert!(matches!(Command::parse("/clear"), Command::ClearHistory));
    assert!(matches!(Command::parse("/exit"), Command::Exit));
    assert!(matches!(Command::parse("/quit"), Command::Exit));
    assert!(matches!(Command::parse("ls -la"), Command::PassThrough));
    assert!(matches!(Command::parse("  /ai  padded  "), Command::AiChat(s) if s == "padded"));
    assert!(matches!(Command::parse("/ai"), Command::AiChat(s) if s.is_empty()));
}

#[test]
fn test_input_state_modes() {
    let mut state = InputState::new();
    assert_eq!(*state.mode(), Mode::Terminal);
    state.toggle_mode();
    assert_eq!(*state.mode(), Mode::AI);
    state.toggle_mode();
    assert_eq!(*state.mode(), Mode::Terminal);

    state.line_buffer.push_str("abc");
    state.input_buffer.push_str("abc");
    state.clear_buffers();
    assert!(state.line_buffer.is_empty());
    assert!(state.input_buffer.is_empty());
}

#[test]
fn test_decide_line() {
    assert!(matches!(
        decide_line(&Mode::Terminal, "ls"),
        LineDecision::Command(s) if s == "ls"
    ));
    assert!(matches!(decide_line(&Mode::AI, "/exit"), LineDecision::Toggle));
    assert!(matches!(decide_line(&Mode::AI, "/quit"), LineDecision::Toggle));
    assert!(matches!(
        decide_line(&Mode::AI, "/stats"),
        LineDecision::Command(s) if s == "/stats"
    ));
    assert!(matches!(
        decide_line(&Mode::AI, "what is rust"),
        LineDecision::Command(s) if s == "/ai what is rust"
    ));
}

#[test]
fn test_standardize_output() {
    let out = standardize_output(b"a\tb\tc");
    assert_eq!(out, b"a  b  c".to_vec());
    let unchanged = standardize_output(b"plain");
    assert_eq!(unchanged, b"plain".to_vec());
}

#[test]
fn test_zsh_color_names() {
    assert_eq!(ZshColor::Green.as_str(), "green");
    assert_eq!(ZshColor::Magenta.as_str(), "magenta");
    assert_eq!(ZshColor::Cyan.as_str(), "cyan");
    assert_eq!(ZshColor::Blue.as_str(), "blue");
    assert_eq!(ZshColor::Yellow.as_str(), "yellow");
    assert_eq!(ZshColor::Red.as_str(), "red");
    assert_eq!(ZshColor::White.as_str(), "white");
}
