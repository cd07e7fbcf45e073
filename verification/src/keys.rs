//! What a key does in the terminal client, and what `Enter` sends.
//!
//! A key press is read against the screen's state: Ctrl-C always quits; an
//! open picker, prompt, tree or settings page takes every other key; `Esc`
//! first leaves an edit-and-resend, then quits; the remaining keys edit the
//! input line, scroll, toggle folds or open a panel. `Enter` turns the input
//! line into a slash command or a message with its `@path` attachments.
use vstd::prelude::*;

use crate::text::{
    append_chars, chars_of, dec, decimal, join, join_exec, lines_view, string_of, trim, trim_vec, words,
};
use crate::tui::{body_words, extract_attachments, marked_paths, parse_slash, spec_parse_slash, strings_view};

verus! {

/// The key of a key press, as far as the client tells keys apart.
#[derive(Debug, Clone, Copy, PartialEq, Eq)]
pub enum Key {
    Char(char),
    Enter,
    Esc,
    Backspace,
    PageUp,
    PageDown,
    Other,
}

/// A key press: the key and whether Ctrl was held.
#[derive(Debug, Clone, Copy, PartialEq, Eq)]
pub struct KeyPress {
    pub key: Key,
    pub ctrl: bool,
}

/// What of the screen decides where a key goes: the overlays that are open
/// and whether an edit-and-resend is under way.
#[derive(Debug, Clone, Copy, PartialEq, Eq)]
pub struct Screen {
    pub picker: bool,
    pub prompt: bool,
    pub tree: bool,
    pub settings: bool,
    pub forking: bool,
}

/// The panels a Ctrl key opens.
#[derive(Debug, Clone, Copy, PartialEq, Eq)]
pub enum Panel {
    /// The picker of panels (Ctrl-O).
    Menu,
    Sessions,
    Models,
    Agents,
    Reasoning,
    Branches,
    /// The messages to edit and resend from (Ctrl-E).
    Forks,
    /// The prompt that renames the session (Ctrl-T).
    Rename,
}

/// What a key press does.
#[derive(Debug, Clone, Copy, PartialEq, Eq)]
pub enum KeyAction {
    Quit,
    /// The open picker handles the key.
    Picker,
    /// The open prompt handles the key.
    Prompt,
    /// The open tree handles the key.
    Tree,
    /// The open settings page handles the key.
    Settings,
    /// Leave the edit-and-resend.
    CancelFork,
    Open(Panel),
    ToggleThinking,
    ToggleTools,
    ToggleSystemPrompt,
    ScrollUp,
    ScrollDown,
    /// Drop the input's last character.
    DeleteChar,
    ClearInput,
    /// Ask the room to stop the running turn.
    CancelTurn,
    /// Attach the clipboard's image to the next message.
    PasteImage,
    Submit,
    Insert(char),
    Ignore,
}

/// What Ctrl with a letter does, where it does anything.
pub open spec fn ctrl_action(c: char) -> Option<KeyAction> {
    if c == 'o' {
        Some(KeyAction::Open(Panel::Menu))
    } else if c == 'n' {
        Some(KeyAction::Open(Panel::Sessions))
    } else if c == 'l' {
        Some(KeyAction::Open(Panel::Models))
    } else if c == 'a' {
        Some(KeyAction::Open(Panel::Agents))
    } else if c == 'r' {
        Some(KeyAction::Open(Panel::Reasoning))
    } else if c == 'b' {
        Some(KeyAction::Open(Panel::Branches))
    } else if c == 'e' {
        Some(KeyAction::Open(Panel::Forks))
    } else if c == 't' {
        Some(KeyAction::Open(Panel::Rename))
    } else if c == 'g' {
        Some(KeyAction::ToggleThinking)
    } else if c == 'y' {
        Some(KeyAction::ToggleTools)
    } else if c == 'p' {
        Some(KeyAction::ToggleSystemPrompt)
    } else if c == 'u' {
        Some(KeyAction::ClearInput)
    } else if c == 'x' {
        Some(KeyAction::CancelTurn)
    } else if c == 'v' {
        Some(KeyAction::PasteImage)
    } else {
        None
    }
}

/// What a key does on a screen with nothing open over the input line.
pub open spec fn main_action(k: KeyPress) -> KeyAction {
    match k.key {
        Key::Char(c) => if k.ctrl {
            match ctrl_action(c) {
                Some(a) => a,
                None => KeyAction::Ignore,
            }
        } else {
            KeyAction::Insert(c)
        },
        Key::PageUp => KeyAction::ScrollUp,
        Key::PageDown => KeyAction::ScrollDown,
        Key::Backspace => KeyAction::DeleteChar,
        Key::Enter => KeyAction::Submit,
        _ => KeyAction::Ignore,
    }
}

/// What a key does: Ctrl-C quits wherever it is pressed; an open overlay
/// (picker, prompt, tree, settings, in that order) takes the key; `Esc`
/// leaves an edit-and-resend, else quits; the rest as [`main_action`] says.
pub open spec fn spec_key_action(k: KeyPress, s: Screen) -> KeyAction {
    if k.key == Key::Char('c') && k.ctrl {
        KeyAction::Quit
    } else if s.picker {
        KeyAction::Picker
    } else if s.prompt {
        KeyAction::Prompt
    } else if s.tree {
        KeyAction::Tree
    } else if s.settings {
        KeyAction::Settings
    } else if k.key == Key::Esc && s.forking {
        KeyAction::CancelFork
    } else if k.key == Key::Esc {
        KeyAction::Quit
    } else {
        main_action(k)
    }
}

/// The keys that leave the client: `Esc` and Ctrl-C.
pub fn is_quit_key(k: KeyPress) -> (b: bool)
    ensures
        b == (k.key == Key::Esc || (k.key == Key::Char('c') && k.ctrl)),
{
    match k.key {
        Key::Esc => true,
        Key::Char(c) => c == 'c' && k.ctrl,
        _ => false,
    }
}

fn ctrl_key_action(c: char) -> (r: Option<KeyAction>)
    ensures
        r == ctrl_action(c),
{
    match c {
        'o' => Some(KeyAction::Open(Panel::Menu)),
        'n' => Some(KeyAction::Open(Panel::Sessions)),
        'l' => Some(KeyAction::Open(Panel::Models)),
        'a' => Some(KeyAction::Open(Panel::Agents)),
        'r' => Some(KeyAction::Open(Panel::Reasoning)),
        'b' => Some(KeyAction::Open(Panel::Branches)),
        'e' => Some(KeyAction::Open(Panel::Forks)),
        't' => Some(KeyAction::Open(Panel::Rename)),
        'g' => Some(KeyAction::ToggleThinking),
        'y' => Some(KeyAction::ToggleTools),
        'p' => Some(KeyAction::ToggleSystemPrompt),
        'u' => Some(KeyAction::ClearInput),
        'x' => Some(KeyAction::CancelTurn),
        'v' => Some(KeyAction::PasteImage),
        _ => None,
    }
}

/// What a key press does on the screen, as [`spec_key_action`] says.
pub fn key_action(k: KeyPress, s: Screen) -> (r: KeyAction)
    ensures
        r == spec_key_action(k, s),
{
    let is_esc = match k.key {
        Key::Esc => true,
        _ => false,
    };
    let is_ctrl_c = match k.key {
        Key::Char(c) => k.ctrl && c == 'c',
        _ => false,
    };
    if is_ctrl_c {
        KeyAction::Quit
    } else if s.picker {
        KeyAction::Picker
    } else if s.prompt {
        KeyAction::Prompt
    } else if s.tree {
        KeyAction::Tree
    } else if s.settings {
        KeyAction::Settings
    } else if is_esc && s.forking {
        KeyAction::CancelFork
    } else if is_esc {
        KeyAction::Quit
    } else {
        match k.key {
            Key::Char(c) => if k.ctrl {
                match ctrl_key_action(c) {
                    Some(a) => a,
                    None => KeyAction::Ignore,
                }
            } else {
                KeyAction::Insert(c)
            },
            Key::PageUp => KeyAction::ScrollUp,
            Key::PageDown => KeyAction::ScrollDown,
            Key::Backspace => KeyAction::DeleteChar,
            Key::Enter => KeyAction::Submit,
            _ => KeyAction::Ignore,
        }
    }
}

/// Lines one page key scrolls by.
pub const PAGE_STEP: u16 = 10;

/// Page Up: ten lines back (not past the top), and the view stops following
/// new output. Returns the new offset and whether the view follows.
pub fn page_up(scroll: u16) -> (r: (u16, bool))
    ensures
        r.0 == (if scroll >= PAGE_STEP {
            scroll - PAGE_STEP
        } else {
            0
        }),
        !r.1,
{
    if scroll >= PAGE_STEP {
        (scroll - PAGE_STEP, false)
    } else {
        (0, false)
    }
}

/// Page Down: ten lines on (not past the largest offset), and the view
/// follows new output again.
pub fn page_down(scroll: u16) -> (r: (u16, bool))
    ensures
        r.0 == (if scroll + PAGE_STEP <= u16::MAX {
            scroll + PAGE_STEP
        } else {
            u16::MAX as int
        }),
        r.1,
{
    if scroll <= u16::MAX - PAGE_STEP {
        (scroll + PAGE_STEP, true)
    } else {
        (u16::MAX, true)
    }
}

// ---------------------------------------------------------------------------
// Enter
// ---------------------------------------------------------------------------

/// What `Enter` does with the input line.
#[derive(Debug, PartialEq)]
pub enum EnterPlan {
    /// Nothing to send: the line is blank and no image waits.
    Ignore,
    /// A slash command, run by the client itself.
    Slash { command: String, args: String },
    /// A message: the text without its `@path` markers, and the marked paths.
    Message { text: String, paths: Vec<String> },
}

/// What `Enter` does: on the trimmed line, nothing where it is empty and no
/// image waits; a slash command ([`spec_parse_slash`]); else a message with
/// its attachment markers taken off.
pub open spec fn enter_matches(r: EnterPlan, input: Seq<char>, pending_images: nat) -> bool {
    let raw = trim(input);
    if raw.len() == 0 && pending_images == 0 {
        r == EnterPlan::Ignore
    } else {
        match spec_parse_slash(raw) {
            Some((c, a)) => r matches EnterPlan::Slash { command, args } && command@ == c && args@ == a,
            None => r matches EnterPlan::Message { text, paths } && text@ == join(body_words(words(raw)), " "@)
                && strings_view(paths@) == marked_paths(words(raw)),
        }
    }
}

/// What `Enter` does with the input line, as [`enter_matches`] says.
pub fn enter_plan(input: &str, pending_images: usize) -> (r: EnterPlan)
    ensures
        enter_matches(r, input@, pending_images as nat),
{
    let c = chars_of(input);
    let t = trim_vec(c.as_slice());
    if t.len() == 0 && pending_images == 0 {
        return EnterPlan::Ignore;
    }
    let raw = string_of(t.as_slice());
    match parse_slash(raw.as_str()) {
        Some((command, args)) => EnterPlan::Slash { command, args },
        None => {
            let (text, paths) = extract_attachments(raw.as_str());
            EnterPlan::Message { text, paths }
        },
    }
}

/// Whether a message goes out.
#[derive(Debug, Clone, Copy, PartialEq, Eq)]
pub enum SendStep {
    /// Nothing to send: no text and no attachment.
    Ignore,
    /// An edit-and-resend carries no attachments: the message is refused
    /// and the input kept.
    RefuseFork,
    Send,
}

/// Whether a message with this text and this many attachments (marked
/// paths and waiting images together) goes out.
pub fn send_step(text: &str, attachments: usize, forking: bool) -> (r: SendStep)
    ensures
        r == (if text@.len() == 0 && attachments == 0 {
            SendStep::Ignore
        } else if forking && attachments > 0 {
            SendStep::RefuseFork
        } else {
            SendStep::Send
        }),
{
    let c = chars_of(text);
    if c.len() == 0 && attachments == 0 {
        SendStep::Ignore
    } else if forking && attachments > 0 {
        SendStep::RefuseFork
    } else {
        SendStep::Send
    }
}

/// The notice of a refused edit-and-resend with attachments.
pub fn fork_refused_notice() -> (r: String)
    ensures
        r@ == "编辑重发不支持附件：先取消分叉或去掉 @路径"@,
{
    "编辑重发不支持附件：先取消分叉或去掉 @路径".to_owned()
}

/// The line that marks where a resent message starts a new branch.
pub fn fork_marker(label: &str) -> (r: String)
    ensures
        r@ == "── 从「"@ + label@ + "」处重新开始 ──"@,
{
    let mut m = chars_of("── 从「");
    let l = chars_of(label);
    append_chars(&mut m, l.as_slice());
    let tail = chars_of("」处重新开始 ──");
    append_chars(&mut m, tail.as_slice());
    string_of(m.as_slice())
}

/// The parts an attachment notice lists: the marked paths, then the count of
/// clipboard images where there are any.
pub open spec fn attachment_parts(paths: Seq<Seq<char>>, clipboard: nat) -> Seq<Seq<char>> {
    if clipboard > 0 {
        paths.push("剪贴板图片 "@ + dec(clipboard) + " 张"@)
    } else {
        paths
    }
}

/// The notice of a message sent with attachments: their number, then the
/// parts of [`attachment_parts`] joined by `、`.
pub fn attachments_notice(paths: &Vec<String>, clipboard: usize, total: usize) -> (r: String)
    ensures
        r@ == "附件 "@ + dec(total as nat) + " 个："@ + join(
            attachment_parts(strings_view(paths@), clipboard as nat),
            "、"@,
        ),
{
    let mut parts: Vec<Vec<char>> = Vec::new();
    let mut i: usize = 0;
    while i < paths.len()
        invariant
            i <= paths@.len(),
            lines_view(parts@) == strings_view(paths@).take(i as int),
        decreases paths@.len() - i,
    {
        let ghost before = lines_view(parts@);
        parts.push(chars_of(paths[i].as_str()));
        assert(lines_view(parts@) =~= before.push(paths@[i as int]@));
        assert(strings_view(paths@).take(i + 1) =~= strings_view(paths@).take(i as int).push(paths@[i as int]@));
        i = i + 1;
    }
    assert(strings_view(paths@).take(paths@.len() as int) =~= strings_view(paths@));
    if clipboard > 0 {
        let mut p = chars_of("剪贴板图片 ");
        let n = decimal(clipboard as u128);
        append_chars(&mut p, n.as_slice());
        let tail = chars_of(" 张");
        append_chars(&mut p, tail.as_slice());
        let ghost before = lines_view(parts@);
        parts.push(p);
        assert(lines_view(parts@) =~= before.push(p@));
    }
    let sep = chars_of("、");
    let joined = join_exec(&parts, sep.as_slice());
    let mut m = chars_of("附件 ");
    let n = decimal(total as u128);
    append_chars(&mut m, n.as_slice());
    let mid = chars_of(" 个：");
    append_chars(&mut m, mid.as_slice());
    append_chars(&mut m, joined.as_slice());
    string_of(m.as_slice())
}

} // verus!
