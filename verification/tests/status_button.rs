use dontspeak::connection::Status;
use dontspeak::dictation::DictationPhase;
use dontspeak::settings::{
    hide_status_bar_button, DontSpeakSettings, DontSpeakSettingsContent, NarratePanelAgents,
};
use dontspeak::status_button::{
    action_label, ButtonAction, ButtonColor, DontSpeakStatusButton, MenuEntry, Rendered,
    ERROR_TOOLTIP, TOOLTIP, VOICE_SETTINGS_PAGE,
};

fn settings(status_bar_button: bool) -> DontSpeakSettings {
    DontSpeakSettings {
        enabled: true,
        narrate_panel_agents: NarratePanelAgents::Auto,
        status_bar_button,
    }
}

fn render(status: Option<Status>, phase: Option<DictationPhase>) -> Rendered {
    DontSpeakStatusButton::new(status, phase).render(&settings(true))
}

#[test]
fn the_button_hides_itself() {
    for status in [None, Some(Status::Disabled), Some(Status::Absent)] {
        assert_eq!(
            render(status, Some(DictationPhase::Recording)),
            Rendered::Hidden
        );
    }
    assert_eq!(
        DontSpeakStatusButton::new(Some(Status::Connected), None).render(&settings(false)),
        Rendered::Hidden
    );
}

#[test]
fn the_button_shows_the_phase() {
    let idle = Rendered::Button {
        icon: ButtonColor::Muted,
        indicator: None,
        pulse: false,
    };
    assert_eq!(render(Some(Status::Connected), None), idle);
    assert_eq!(
        render(Some(Status::Connected), Some(DictationPhase::Idle)),
        idle
    );
    assert_eq!(
        render(Some(Status::Connected), Some(DictationPhase::Recording)),
        Rendered::Button {
            icon: ButtonColor::Error,
            indicator: Some(ButtonColor::Error),
            pulse: true,
        }
    );
    assert_eq!(
        render(
            Some(Status::Connected),
            Some(DictationPhase::AwaitingConfirm)
        ),
        Rendered::Button {
            icon: ButtonColor::Accent,
            indicator: Some(ButtonColor::Accent),
            pulse: false,
        }
    );
    assert_eq!(
        render(Some(Status::Connecting), Some(DictationPhase::Recording)),
        Rendered::Button {
            icon: ButtonColor::Disabled,
            indicator: None,
            pulse: false,
        }
    );
}

#[test]
fn an_error_is_told_with_its_reason() {
    assert_eq!(
        render(Some(Status::Error("refused".into())), None),
        Rendered::Error {
            message: "DontSpeak can't connect: refused".into()
        }
    );
    assert_eq!(ERROR_TOOLTIP, "DontSpeak Error");
    assert_eq!(TOOLTIP, "DontSpeak");
    assert_eq!(VOICE_SETTINGS_PAGE, "Voice");
}

#[test]
fn the_menu_follows_the_connection() {
    assert_eq!(
        DontSpeakStatusButton::new(Some(Status::Connected), None).build_menu(),
        vec![
            MenuEntry::Header,
            MenuEntry::Action(ButtonAction::ToggleDictation),
            MenuEntry::Action(ButtonAction::StopSpeech),
            MenuEntry::Action(ButtonAction::Mute),
            MenuEntry::Separator,
            MenuEntry::Action(ButtonAction::OpenVoiceSettings),
        ]
    );
    for status in [None, Some(Status::Connecting)] {
        assert_eq!(
            DontSpeakStatusButton::new(status, None).build_menu()[1],
            MenuEntry::Action(ButtonAction::Reconnect)
        );
    }
    assert_eq!(
        action_label(ButtonAction::ToggleDictation),
        "Toggle Dictation"
    );
    assert_eq!(action_label(ButtonAction::StopSpeech), "Stop Speech");
    assert_eq!(action_label(ButtonAction::Mute), "Mute");
    assert_eq!(action_label(ButtonAction::Reconnect), "Reconnect");
    assert_eq!(
        action_label(ButtonAction::OpenVoiceSettings),
        "Open Voice Settings"
    );
}

#[test]
fn hiding_the_button_leaves_the_other_settings() {
    let mut content = Some(DontSpeakSettingsContent {
        enabled: Some(false),
        narrate_panel_agents: Some(NarratePanelAgents::All),
        status_bar_button: Some(true),
    });
    hide_status_bar_button(&mut content);
    assert_eq!(
        content,
        Some(DontSpeakSettingsContent {
            enabled: Some(false),
            narrate_panel_agents: Some(NarratePanelAgents::All),
            status_bar_button: Some(false),
        })
    );
    let mut content = None;
    hide_status_bar_button(&mut content);
    assert_eq!(
        content,
        Some(DontSpeakSettingsContent {
            status_bar_button: Some(false),
            ..DontSpeakSettingsContent::default()
        })
    );
}

#[test]
fn complete_settings_are_resolved() {
    let content = Some(DontSpeakSettingsContent {
        enabled: Some(true),
        narrate_panel_agents: Some(NarratePanelAgents::Never),
        status_bar_button: Some(false),
    });
    assert_eq!(
        DontSpeakSettings::from_settings(&content),
        DontSpeakSettings {
            enabled: true,
            narrate_panel_agents: NarratePanelAgents::Never,
            status_bar_button: false,
        }
    );
    assert_eq!(NarratePanelAgents::default(), NarratePanelAgents::Auto);
}
