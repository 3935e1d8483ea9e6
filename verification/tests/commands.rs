use goat_reuniao::commands::{paste_first, paste_next, PasteStep, PasteTool};
use goat_reuniao::commands::{
    language_or_default, ok_payload, parse_ipc_command, ptt_release_outcome, start_failure_message,
    status_reply, toggle_label, toggle_notice, tray_menu_action, tt_stop_reply, typed_notice,
    video_busy_error, IpcCommand, PttOutcome, TrayAction,
};
use goat_reuniao::overlay_position;
use goat_reuniao::prompt::prompt_needs_transcription;
use goat_reuniao::whisper::MODEL_NAME;

#[test]
fn payloads() {
    assert!(ok_payload().ok);
    assert_eq!(language_or_default(None), "pt");
    assert_eq!(language_or_default(Some("en".to_string())), "en");
    let s = status_reply(true, false);
    assert!(s.whisper && !s.meeting);
    assert_eq!(s.model, MODEL_NAME);
    assert_eq!(video_busy_error(), "já existe uma transcrição de vídeo em andamento");
}

#[test]
fn tt_stop_replies() {
    let r = tt_stop_reply(Ok(Some("oi".to_string())));
    assert!(r.ok && r.text == "oi" && r.active.is_none() && r.error.is_none());
    let r = tt_stop_reply(Ok(None));
    assert!(r.ok && r.text.is_empty() && r.active == Some(false));
    let r = tt_stop_reply(Err("boom".to_string()));
    assert!(!r.ok && r.text.is_empty() && r.error == Some("boom".to_string()));
}

#[test]
fn ptt_outcomes() {
    assert!(matches!(ptt_release_outcome(Ok(Some("texto".to_string()))), PttOutcome::Typed(t) if t == "texto"));
    assert!(matches!(ptt_release_outcome(Ok(Some(String::new()))), PttOutcome::Failed(m) if m == "nenhum áudio detectado"));
    assert!(matches!(ptt_release_outcome(Ok(None)), PttOutcome::Nothing));
    assert!(matches!(ptt_release_outcome(Err("x".to_string())), PttOutcome::Failed(m) if m == "falha ao parar PTT: x"));
    assert_eq!(typed_notice(true), "Prompt transcrito e digitado ✓");
    assert_eq!(typed_notice(false), "Transcrito — copiado (wtype ausente)");
}

#[test]
fn meeting_switch_texts() {
    assert_eq!(toggle_label(true), "Parar Reunião");
    assert_eq!(toggle_label(false), "Iniciar Reunião");
    assert_eq!(toggle_notice(true), "Gravação iniciada");
    assert_eq!(toggle_notice(false), "Gravação pausada");
    assert_eq!(start_failure_message("sem microfone"), "falha ao iniciar: sem microfone");
}

#[test]
fn tray_entries() {
    assert!(matches!(tray_menu_action("toggle"), Some(TrayAction::ToggleMeeting)));
    assert!(matches!(tray_menu_action("show"), Some(TrayAction::ShowWindow)));
    assert!(matches!(tray_menu_action("quit"), Some(TrayAction::Quit)));
    assert!(tray_menu_action("other").is_none());
}

#[test]
fn ipc_commands_are_trimmed() {
    assert!(matches!(parse_ipc_command("ptt_press"), IpcCommand::PttPress));
    assert!(matches!(parse_ipc_command(" ptt_release\r"), IpcCommand::PttRelease));
    assert!(matches!(parse_ipc_command("meeting_toggle\n"), IpcCommand::MeetingToggle));
    assert!(matches!(parse_ipc_command("show"), IpcCommand::Show));
    assert!(matches!(parse_ipc_command("\tquit "), IpcCommand::Quit));
    assert!(matches!(parse_ipc_command("  dance  "), IpcCommand::Unknown(t) if t == "dance"));
}

#[test]
fn overlay_sits_at_bottom_centre() {
    assert_eq!(overlay_position(0, 0, 1920, 1080), (750, 982));
    assert_eq!(overlay_position(1920, 0, 1280, 1024), (1920 + 430, 926));
    assert_eq!(overlay_position(0, 0, 401, 100), (-9, 2));
}

#[test]
fn prompt_length_threshold() {
    assert!(!prompt_needs_transcription(399));
    assert!(prompt_needs_transcription(400));
}

#[test]
fn paste_tool_order() {
    assert!(matches!(paste_first(), PasteTool::WlCopy));
    assert!(matches!(paste_next(PasteTool::WlCopy, true), PasteStep::Run(PasteTool::Wtype)));
    assert!(matches!(paste_next(PasteTool::WlCopy, false), PasteStep::Run(PasteTool::Xclip)));
    assert!(matches!(paste_next(PasteTool::Wtype, true), PasteStep::Finish(true)));
    assert!(matches!(paste_next(PasteTool::Wtype, false), PasteStep::Run(PasteTool::Xdotool)));
    assert!(matches!(paste_next(PasteTool::Xclip, true), PasteStep::Run(PasteTool::Xdotool)));
    assert!(matches!(paste_next(PasteTool::Xclip, false), PasteStep::Finish(false)));
    assert!(matches!(paste_next(PasteTool::Xdotool, false), PasteStep::Finish(false)));
    assert!(matches!(paste_next(PasteTool::Xdotool, true), PasteStep::Finish(true)));
}
