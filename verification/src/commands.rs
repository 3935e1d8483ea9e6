use vstd::prelude::*;
use vstd::string::StringExecFns;

use crate::text::{chars_of, same_text, string_from_chars, trim_chars, trimmed};
use crate::whisper::MODEL_NAME;

verus! {

/// `prefix` followed by `detail`.
pub fn prefixed(prefix: &str, detail: &str) -> (m: String)
    ensures
        m@ == prefix@ + detail@,
{
    let mut m = String::new();
    m.append(prefix);
    m.append(detail);
    m
}

// ---------------------------------------------------------------------------
// Command replies
// ---------------------------------------------------------------------------

/// Reply of a command that succeeded.
pub struct OkPayload {
    pub ok: bool,
}

pub fn ok_payload() -> (p: OkPayload)
    ensures
        p.ok,
{
    OkPayload { ok: true }
}

/// The language asked for, Portuguese by default.
pub fn language_or_default(language: Option<String>) -> (l: String)
    ensures
        language matches Some(x) ==> l == x,
        language is None ==> l@ == "pt"@,
{
    match language {
        Some(x) => x,
        None => String::from_str("pt"),
    }
}

/// Reply to stopping a push-to-talk prompt from the window.
pub struct TtStopReply {
    pub ok: bool,
    pub text: String,
    /// Present, and false, when no prompt was being recorded.
    pub active: Option<bool>,
    /// Present when the prompt could not be transcribed.
    pub error: Option<String>,
}

/// The reply for the result of stopping a prompt: its text; an inactive empty reply when
/// nothing was recorded; a failed empty reply carrying the error otherwise.
pub fn tt_stop_reply(result: Result<Option<String>, String>) -> (r: TtStopReply)
    ensures
        result matches Ok(Some(text)) ==> r.ok && r.text == text && r.active is None
            && r.error is None,
        result matches Ok(None) ==> r.ok && r.text@ == Seq::<char>::empty() && r.active == Some(
            false,
        ) && r.error is None,
        result matches Err(e) ==> !r.ok && r.text@ == Seq::<char>::empty() && r.active is None
            && r.error == Some(e),
{
    match result {
        Ok(Some(text)) => TtStopReply { ok: true, text, active: None, error: None },
        Ok(None) => TtStopReply { ok: true, text: String::new(), active: Some(false), error: None },
        Err(e) => TtStopReply { ok: false, text: String::new(), active: None, error: Some(e) },
    }
}

/// Reply to a status query.
pub struct StatusReply {
    pub whisper: bool,
    pub meeting: bool,
    pub model: &'static str,
}

pub fn status_reply(whisper: bool, meeting: bool) -> (r: StatusReply)
    ensures
        r.whisper == whisper,
        r.meeting == meeting,
        r.model@ == MODEL_NAME@,
{
    StatusReply { whisper, meeting, model: MODEL_NAME }
}

/// Error of a video transcription asked for while another one runs.
pub fn video_busy_error() -> (m: String)
    ensures
        m@ == "já existe uma transcrição de vídeo em andamento"@,
{
    String::from_str("já existe uma transcrição de vídeo em andamento")
}

// ---------------------------------------------------------------------------
// Push-to-talk and the meeting switch
// ---------------------------------------------------------------------------

/// What to do once a push-to-talk prompt has stopped.
pub enum PttOutcome {
    /// Show and type the transcribed text.
    Typed(String),
    /// Report an error with this message.
    Failed(String),
    /// No prompt was being recorded.
    Nothing,
}

/// Decides what a finished prompt leads to: its text is typed; an empty text is reported as
/// no audio; a failure is reported with its cause.
pub fn ptt_release_outcome(result: Result<Option<String>, String>) -> (o: PttOutcome)
    ensures
        result matches Ok(Some(text)) ==> (if text@.len() > 0 {
            o == PttOutcome::Typed(text)
        } else {
            o matches PttOutcome::Failed(m) && m@ == "nenhum áudio detectado"@
        }),
        result matches Ok(None) ==> o is Nothing,
        result matches Err(e) ==> (o matches PttOutcome::Failed(m) && m@
            == "falha ao parar PTT: "@ + e@),
{
    match result {
        Ok(Some(text)) => {
            if text.as_str().is_empty() {
                PttOutcome::Failed(String::from_str("nenhum áudio detectado"))
            } else {
                PttOutcome::Typed(text)
            }
        },
        Ok(None) => PttOutcome::Nothing,
        Err(e) => PttOutcome::Failed(prefixed("falha ao parar PTT: ", e.as_str())),
    }
}

/// The notice after a transcribed prompt, depending on whether it could be typed.
pub fn typed_notice(typed: bool) -> (m: &'static str)
    ensures
        typed ==> m@ == "Prompt transcrito e digitado ✓"@,
        !typed ==> m@ == "Transcrito — copiado (wtype ausente)"@,
{
    if typed {
        "Prompt transcrito e digitado ✓"
    } else {
        "Transcrito — copiado (wtype ausente)"
    }
}

/// The notice after the meeting recorder was switched.
pub fn toggle_notice(now_running: bool) -> (m: &'static str)
    ensures
        now_running ==> m@ == "Gravação iniciada"@,
        !now_running ==> m@ == "Gravação pausada"@,
{
    if now_running {
        "Gravação iniciada"
    } else {
        "Gravação pausada"
    }
}

/// The message when the meeting recorder could not start.
pub fn start_failure_message(cause: &str) -> (m: String)
    ensures
        m@ == "falha ao iniciar: "@ + cause@,
{
    prefixed("falha ao iniciar: ", cause)
}

/// The notice when a push-to-talk prompt could not start.
pub fn prompt_failure_notice(cause: &str) -> (m: String)
    ensures
        m@ == "erro: "@ + cause@,
{
    prefixed("erro: ", cause)
}

/// The message when the transcription engine could not come up.
pub fn engine_offline_message(cause: &str) -> (m: String)
    ensures
        m@ == "motor offline: "@ + cause@,
{
    prefixed("motor offline: ", cause)
}

/// The message when a meeting segment could not be transcribed.
pub fn transcription_failure_message(cause: &str) -> (m: String)
    ensures
        m@ == "falha na transcrição: "@ + cause@,
{
    prefixed("falha na transcrição: ", cause)
}

// ---------------------------------------------------------------------------
// Tray menu and local socket commands
// ---------------------------------------------------------------------------

/// Label of the tray entry that switches the meeting recorder.
pub fn toggle_label(running: bool) -> (label: &'static str)
    ensures
        running ==> label@ == "Parar Reunião"@,
        !running ==> label@ == "Iniciar Reunião"@,
{
    if running {
        "Parar Reunião"
    } else {
        "Iniciar Reunião"
    }
}

/// The tools used to type a transcribed prompt into the focused field.
pub enum PasteTool {
    /// Copy to the Wayland clipboard.
    WlCopy,
    /// Send Ctrl+V on Wayland.
    Wtype,
    /// Copy to the X11 clipboard.
    Xclip,
    /// Send Ctrl+V on X11.
    Xdotool,
}

/// What to do after a tool ran.
pub enum PasteStep {
    Run(PasteTool),
    /// Typing is over; whether the text was typed.
    Finish(bool),
}

/// The first tool: Wayland's clipboard.
pub fn paste_first() -> (t: PasteTool)
    ensures
        t is WlCopy,
{
    PasteTool::WlCopy
}

pub open spec fn paste_transition(tool: PasteTool, ok: bool) -> PasteStep {
    match tool {
        PasteTool::WlCopy => if ok {
            PasteStep::Run(PasteTool::Wtype)
        } else {
            PasteStep::Run(PasteTool::Xclip)
        },
        PasteTool::Wtype => if ok {
            PasteStep::Finish(true)
        } else {
            PasteStep::Run(PasteTool::Xdotool)
        },
        PasteTool::Xclip => if ok {
            PasteStep::Run(PasteTool::Xdotool)
        } else {
            PasteStep::Finish(false)
        },
        PasteTool::Xdotool => PasteStep::Finish(ok),
    }
}

/// The next step once `tool` ran and succeeded or not: Wayland first (copy, then paste
/// with wtype, else with xdotool); when the Wayland copy fails, X11 (xclip, then xdotool).
pub fn paste_next(tool: PasteTool, ok: bool) -> (s: PasteStep)
    ensures
        s == paste_transition(tool, ok),
{
    match tool {
        PasteTool::WlCopy => if ok {
            PasteStep::Run(PasteTool::Wtype)
        } else {
            PasteStep::Run(PasteTool::Xclip)
        },
        PasteTool::Wtype => if ok {
            PasteStep::Finish(true)
        } else {
            PasteStep::Run(PasteTool::Xdotool)
        },
        PasteTool::Xclip => if ok {
            PasteStep::Run(PasteTool::Xdotool)
        } else {
            PasteStep::Finish(false)
        },
        PasteTool::Xdotool => PasteStep::Finish(ok),
    }
}

/// Law: typing ends after at most three tools, and the text is typed exactly when a copy
/// succeeded and a paste after it did: Wayland's copy with wtype or xdotool, or, when
/// Wayland's copy failed, xclip with xdotool.
pub proof fn law_paste_order(wl_copy: bool, wtype: bool, xclip: bool, xdotool: bool)
    ensures
        ({
            let s1 = paste_transition(PasteTool::WlCopy, wl_copy);
            let t1 = s1->Run_0;
            let s2 = paste_transition(t1, if wl_copy {
                wtype
            } else {
                xclip
            });
            let typed = if wl_copy {
                wtype || xdotool
            } else {
                xclip && xdotool
            };
            &&& s1 is Run
            &&& (s2 matches PasteStep::Finish(b) ==> b == typed)
            &&& (s2 matches PasteStep::Run(t2) ==> t2 is Xdotool && paste_transition(t2, xdotool)
                == PasteStep::Finish(typed))
        }),
{
}

/// What a tray menu entry asks for.
pub enum TrayAction {
    ToggleMeeting,
    ShowWindow,
    Quit,
}

/// The action of the tray menu entry with the given id.
pub fn tray_menu_action(id: &str) -> (a: Option<TrayAction>)
    ensures
        id@ == "toggle"@ ==> a matches Some(TrayAction::ToggleMeeting),
        id@ == "show"@ ==> a matches Some(TrayAction::ShowWindow),
        id@ == "quit"@ ==> a matches Some(TrayAction::Quit),
        id@ != "toggle"@ && id@ != "show"@ && id@ != "quit"@ ==> a is None,
{
    proof {
        reveal_strlit("toggle");
        reveal_strlit("show");
        reveal_strlit("quit");
        assert("toggle"@.len() != "show"@.len() && "toggle"@.len() != "quit"@.len());
        assert("show"@[0] != "quit"@[0]);
    }
    if same_text(id, "toggle") {
        Some(TrayAction::ToggleMeeting)
    } else if same_text(id, "show") {
        Some(TrayAction::ShowWindow)
    } else if same_text(id, "quit") {
        Some(TrayAction::Quit)
    } else {
        None
    }
}

/// A command line received on the local socket.
pub enum IpcCommand {
    PttPress,
    PttRelease,
    MeetingToggle,
    Show,
    Quit,
    /// Anything else; carries the trimmed line.
    Unknown(String),
}

/// Reads a command line: surrounding white space is ignored.
pub fn parse_ipc_command(line: &str) -> (c: IpcCommand)
    ensures
        trimmed(line@) == "ptt_press"@ ==> c is PttPress,
        trimmed(line@) == "ptt_release"@ ==> c is PttRelease,
        trimmed(line@) == "meeting_toggle"@ ==> c is MeetingToggle,
        trimmed(line@) == "show"@ ==> c is Show,
        trimmed(line@) == "quit"@ ==> c is Quit,
        trimmed(line@) != "ptt_press"@ && trimmed(line@) != "ptt_release"@ && trimmed(line@)
            != "meeting_toggle"@ && trimmed(line@) != "show"@ && trimmed(line@) != "quit"@ ==> (
        c matches IpcCommand::Unknown(t) && t@ == trimmed(line@)),
{
    proof {
        reveal_strlit("ptt_press");
        reveal_strlit("ptt_release");
        reveal_strlit("meeting_toggle");
        reveal_strlit("show");
        reveal_strlit("quit");
        assert("ptt_press"@.len() == 9 && "ptt_release"@.len() == 11);
        assert("meeting_toggle"@.len() == 14 && "show"@.len() == 4 && "quit"@.len() == 4);
        assert("show"@[0] != "quit"@[0]);
    }
    let cs = chars_of(line);
    let t = string_from_chars(trim_chars(&cs).as_slice());
    let s = t.as_str();
    if same_text(s, "ptt_press") {
        IpcCommand::PttPress
    } else if same_text(s, "ptt_release") {
        IpcCommand::PttRelease
    } else if same_text(s, "meeting_toggle") {
        IpcCommand::MeetingToggle
    } else if same_text(s, "show") {
        IpcCommand::Show
    } else if same_text(s, "quit") {
        IpcCommand::Quit
    } else {
        IpcCommand::Unknown(t)
    }
}

} // verus!
