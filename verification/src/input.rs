//! The terminal front end's decisions: interaction modes, line-level
//! command parsing, and output normalization. Reading keys and writing to
//! the terminal stay outside; they hand completed lines in and render the
//! returned values.

use vstd::prelude::*;
use vstd::string::StrSliceExecFns;
use vstd::string::StringExecFns;
use vstd::string::StringSliceAdditionalSpecFns;
use vstd::utf8::encode_utf8;
use vstd::utf8::encode_utf8_valid_utf8;
use vstd::utf8::is_char_boundary_iff_not_is_continuation_byte;
use vstd::utf8::is_char_boundary_start_end_of_seq;

use crate::strutil;

verus! {

/// The interaction mode of the terminal.
#[derive(Debug, Clone, Copy, PartialEq, Eq, Structural)]
pub enum Mode {
    /// Pass keys through to the shell.
    Terminal,
    /// Converse with the assistant.
    AI,
}

/// The input-processing state: the current mode and the line being typed.
#[derive(Debug)]
pub struct InputState {
    pub mode: Mode,
    pub line_buffer: String,
    pub input_buffer: String,
}

impl InputState {
    /// A fresh state, starting in terminal mode with empty buffers.
    pub fn new() -> (r: InputState)
        ensures
            r.mode == Mode::Terminal,
            r.line_buffer@ == Seq::<char>::empty(),
            r.input_buffer@ == Seq::<char>::empty(),
    {
        InputState { mode: Mode::Terminal, line_buffer: String::new(), input_buffer: String::new() }
    }

    /// The current mode.
    pub fn mode(&self) -> (r: &Mode)
        ensures
            *r == self.mode,
    {
        &self.mode
    }

    /// Switch between terminal and assistant modes.
    pub fn toggle_mode(&mut self)
        ensures
            old(self).mode == Mode::Terminal ==> final(self).mode == Mode::AI,
            old(self).mode == Mode::AI ==> final(self).mode == Mode::Terminal,
            final(self).line_buffer@ == old(self).line_buffer@,
            final(self).input_buffer@ == old(self).input_buffer@,
    {
        self.mode = match self.mode {
            Mode::Terminal => Mode::AI,
            Mode::AI => Mode::Terminal,
        };
    }

    /// Empty both buffers, after a complete line was handled.
    pub fn clear_buffers(&mut self)
        ensures
            final(self).mode == old(self).mode,
            final(self).line_buffer@ == Seq::<char>::empty(),
            final(self).input_buffer@ == Seq::<char>::empty(),
    {
        self.line_buffer = String::new();
        self.input_buffer = String::new();
    }
}

/// An action the I/O loop must take for a piece of input.
#[derive(Debug)]
pub enum InputAction {
    /// Switch modes.
    ToggleMode,
    /// Echo and buffer one typed character.
    CharacterInput(char),
    /// A complete line was entered.
    LineComplete {
        /// The command text to run.
        cmd_text: String,
        /// The raw line including its line ending.
        raw_line: String,
    },
}

/// What to do with a completed line.
#[derive(Debug)]
pub enum LineDecision {
    /// Leave assistant mode instead of running anything.
    Toggle,
    /// Run this command text.
    Command(String),
}

/// Decide what a completed (end-trimmed) line means: in assistant mode,
/// `/exit` and `/quit` switch back to the terminal, other slash commands
/// pass unchanged, and plain text becomes an assistant query; terminal
/// mode passes every line unchanged.
pub fn decide_line(mode: &Mode, line: &str) -> (r: LineDecision)
    ensures
        ({
            let lb = line.spec_bytes();
            match mode {
                Mode::Terminal => r matches LineDecision::Command(s) && encode_utf8(s@) == lb,
                Mode::AI => {
                    if lb == encode_utf8("/exit"@) || lb == encode_utf8("/quit"@) {
                        r is Toggle
                    } else if lb.len() > 0 && lb[0] == 0x2f {
                        r matches LineDecision::Command(s) && encode_utf8(s@) == lb
                    } else {
                        r matches LineDecision::Command(s) && encode_utf8(s@) == encode_utf8(
                            "/ai "@,
                        ) + lb
                    }
                },
            }
        }),
{
    match mode {
        Mode::Terminal => LineDecision::Command(String::from_str(line)),
        Mode::AI => {
            if strutil::str_eq(line, "/exit") || strutil::str_eq(line, "/quit") {
                LineDecision::Toggle
            } else {
                let b = line.as_bytes();
                if b.len() > 0 && b[0] == 0x2f {
                    LineDecision::Command(String::from_str(line))
                } else {
                    let mut s = String::from_str("/ai ");
                    s.append(line);
                    proof {
                        strutil::lemma_encode_concat("/ai "@, line@);
                    }
                    LineDecision::Command(s)
                }
            }
        },
    }
}

/// Byte index of the first space, or the whole length.
pub open spec fn spec_space_pos(b: Seq<u8>) -> int
    decreases b.len(),
{
    if b.len() == 0 {
        0
    } else if b[0] == 0x20 {
        0
    } else {
        1 + spec_space_pos(b.drop_first())
    }
}

/// The position a forward scan for a space stops at.
pub proof fn lemma_space_pos_at(b: Seq<u8>, p: int)
    requires
        0 <= p <= b.len(),
        p == b.len() || b[p] == 0x20,
        forall|j: int| 0 <= j < p ==> #[trigger] b[j] != 0x20,
    ensures
        spec_space_pos(b) == p,
    decreases b.len(),
{
    if b.len() > 0 && b[0] != 0x20 {
        assert forall|j: int| 0 <= j < p - 1 implies #[trigger] b.drop_first()[j] != 0x20 by {
            assert(b.drop_first()[j] == b[j + 1]);
        }
        lemma_space_pos_at(b.drop_first(), p - 1);
    }
}

/// A command the front end understands.
#[derive(Debug)]
pub enum Command {
    /// Chat with the assistant.
    AiChat(String),
    /// Ask for edit assistance.
    AiEdit(String),
    /// Knowledge-base statistics.
    AiStats,
    /// Add text to the knowledge base.
    AiAdd(String),
    /// Index a directory.
    AiIndex(String),
    /// Clear the conversation history.
    ClearHistory,
    /// Leave the program.
    Exit,
    /// Not a command: pass the line to the shell.
    PassThrough,
}

/// The head word of a trimmed line: the bytes before its first space.
pub open spec fn spec_head_word(lb: Seq<u8>) -> Seq<u8> {
    let t = strutil::spec_trim(lb);
    t.subrange(0, spec_space_pos(t))
}

/// What follows the head word, trimmed; empty when there is no space.
pub open spec fn spec_rest_word(lb: Seq<u8>) -> Seq<u8> {
    let t = strutil::spec_trim(lb);
    let sp = spec_space_pos(t);
    if sp < t.len() {
        strutil::spec_trim(t.subrange(sp + 1, t.len() as int))
    } else {
        Seq::empty()
    }
}

impl Command {
    /// Parse a line into a command: the line is trimmed, its first word
    /// selects the command, and the trimmed remainder is the argument.
    /// Anything else passes through to the shell.
    pub fn parse(line: &str) -> (r: Command)
        ensures
            ({
                let head = spec_head_word(line.spec_bytes());
                let rest = spec_rest_word(line.spec_bytes());
                &&& head == encode_utf8("/ai"@) ==> (r matches Command::AiChat(s) && encode_utf8(s@)
                    == rest)
                &&& head == encode_utf8("/edit"@) ==> (r matches Command::AiEdit(s) && encode_utf8(
                    s@,
                ) == rest)
                &&& head == encode_utf8("/add"@) ==> (r matches Command::AiAdd(s) && encode_utf8(s@)
                    == rest)
                &&& head == encode_utf8("/index"@) ==> (r matches Command::AiIndex(s) && encode_utf8(
                    s@,
                ) == rest)
                &&& head == encode_utf8("/stats"@) ==> r is AiStats
                &&& head == encode_utf8("/clear"@) ==> r is ClearHistory
                &&& (head == encode_utf8("/exit"@) || head == encode_utf8("/quit"@)) ==> r is Exit
                &&& (head != encode_utf8("/ai"@) && head != encode_utf8("/edit"@) && head
                    != encode_utf8("/add"@) && head != encode_utf8("/index"@) && head != encode_utf8(
                    "/stats"@,
                ) && head != encode_utf8("/clear"@) && head != encode_utf8("/exit"@) && head
                    != encode_utf8("/quit"@)) ==> r is PassThrough
            }),
    {
        let trimmed = strutil::trim_ascii(line);
        proof {
            encode_utf8_valid_utf8(trimmed@);
            is_char_boundary_start_end_of_seq(trimmed.spec_bytes());
        }
        let tb = trimmed.as_bytes();
        let n = tb.len();
        let mut sp: usize = 0;
        while sp < n && tb[sp] != 0x20
            invariant
                tb@ == trimmed.spec_bytes(),
                n == tb@.len(),
                0 <= sp <= n,
                forall|j: int| 0 <= j < sp ==> #[trigger] tb@[j] != 0x20,
            decreases n - sp,
        {
            sp = sp + 1;
        }
        proof {
            lemma_space_pos_at(tb@, sp as int);
            if sp < n {
                is_char_boundary_iff_not_is_continuation_byte(tb@, sp as int);
            }
        }
        let (head, _) = trimmed.split_at(sp);
        let rest: &str = if sp < n {
            proof {
                strutil::lemma_boundary_after_ascii(tb@, sp as int);
            }
            let (_, after) = trimmed.split_at(sp + 1);
            strutil::trim_ascii(after)
        } else {
            ""
        };
        proof {
            reveal_strlit("");
            if sp == n {
                assert(rest.spec_bytes() =~= Seq::<u8>::empty());
            }
            assert(spec_head_word(line.spec_bytes()) == head.spec_bytes());
            assert(spec_rest_word(line.spec_bytes()) == rest.spec_bytes());
            // The command words are pairwise distinct: different lengths, or a
            // differing byte among those of equal length.
            reveal_strlit("/ai");
            reveal_strlit("/edit");
            reveal_strlit("/add");
            reveal_strlit("/index");
            reveal_strlit("/stats");
            reveal_strlit("/clear");
            reveal_strlit("/exit");
            reveal_strlit("/quit");
            vstd::utf8::is_ascii_chars_encode_utf8("/ai"@);
            vstd::utf8::is_ascii_chars_encode_utf8("/edit"@);
            vstd::utf8::is_ascii_chars_encode_utf8("/add"@);
            vstd::utf8::is_ascii_chars_encode_utf8("/index"@);
            vstd::utf8::is_ascii_chars_encode_utf8("/stats"@);
            vstd::utf8::is_ascii_chars_encode_utf8("/clear"@);
            vstd::utf8::is_ascii_chars_encode_utf8("/exit"@);
            vstd::utf8::is_ascii_chars_encode_utf8("/quit"@);
            assert(encode_utf8("/edit"@)[2] != encode_utf8("/exit"@)[2]);
            assert(encode_utf8("/edit"@)[1] != encode_utf8("/quit"@)[1]);
            assert(encode_utf8("/exit"@)[1] != encode_utf8("/quit"@)[1]);
            assert(encode_utf8("/index"@)[1] != encode_utf8("/stats"@)[1]);
            assert(encode_utf8("/index"@)[1] != encode_utf8("/clear"@)[1]);
            assert(encode_utf8("/stats"@)[1] != encode_utf8("/clear"@)[1]);
        }
        if strutil::str_eq(head, "/ai") {
            Command::AiChat(String::from_str(rest))
        } else if strutil::str_eq(head, "/edit") {
            Command::AiEdit(String::from_str(rest))
        } else if strutil::str_eq(head, "/add") {
            Command::AiAdd(String::from_str(rest))
        } else if strutil::str_eq(head, "/index") {
            Command::AiIndex(String::from_str(rest))
        } else if strutil::str_eq(head, "/stats") {
            Command::AiStats
        } else if strutil::str_eq(head, "/clear") {
            Command::ClearHistory
        } else if strutil::str_eq(head, "/exit") || strutil::str_eq(head, "/quit") {
            Command::Exit
        } else {
            Command::PassThrough
        }
    }
}

/// Output bytes with every tab widened to two spaces.
pub open spec fn spec_standardize(b: Seq<u8>) -> Seq<u8>
    decreases b.len(),
{
    if b.len() == 0 {
        Seq::empty()
    } else {
        spec_standardize(b.drop_last()) + (if b.last() == 0x09 {
            seq![0x20u8, 0x20u8]
        } else {
            seq![b.last()]
        })
    }
}

/// Normalize raw terminal output: tabs become two spaces; everything else
/// passes through unchanged.
pub fn standardize_output(buf: &[u8]) -> (r: Vec<u8>)
    ensures
        r@ == spec_standardize(buf@),
{
    let n = buf.len();
    let mut out: Vec<u8> = Vec::new();
    let mut i: usize = 0;
    while i < n
        invariant
            n == buf@.len(),
            0 <= i <= n,
            out@ == spec_standardize(buf@.take(i as int)),
        decreases n - i,
    {
        proof {
            assert(buf@.take(i + 1).drop_last() =~= buf@.take(i as int));
            assert(buf@.take(i + 1).last() == buf@[i as int]);
        }
        let b = buf[i];
        if b == 0x09 {
            out.push(0x20);
            out.push(0x20);
        } else {
            out.push(b);
        }
        i = i + 1;
    }
    proof {
        assert(buf@.take(n as int) =~= buf@);
    }
    out
}

/// A terminal prompt color, by its shell name.
#[derive(Debug, Clone, Copy, PartialEq, Eq, Structural)]
pub enum ZshColor {
    Green,
    Magenta,
    Cyan,
    Blue,
    Yellow,
    Red,
    White,
}

impl ZshColor {
    /// The color's name as the shell writes it.
    pub fn as_str(&self) -> (r: &'static str)
        ensures
            match self {
                ZshColor::Green => r@ == "green"@,
                ZshColor::Magenta => r@ == "magenta"@,
                ZshColor::Cyan => r@ == "cyan"@,
                ZshColor::Blue => r@ == "blue"@,
                ZshColor::Yellow => r@ == "yellow"@,
                ZshColor::Red => r@ == "red"@,
                ZshColor::White => r@ == "white"@,
            },
    {
        match self {
            ZshColor::Green => "green",
            ZshColor::Magenta => "magenta",
            ZshColor::Cyan => "cyan",
            ZshColor::Blue => "blue",
            ZshColor::Yellow => "yellow",
            ZshColor::Red => "red",
            ZshColor::White => "white",
        }
    }
}

} // verus!
