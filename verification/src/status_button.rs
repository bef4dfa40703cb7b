//! The button in the status bar.
//!
//! It hides itself where the integration is off, the daemon is absent or the
//! settings say so. Otherwise it shows the phase of the dictation, tells of
//! connection errors, and opens a menu with the daemon's controls.

use crate::connection::{Status, StatusView};
use crate::dictation::DictationPhase;
use crate::settings::DontSpeakSettings;
use vstd::prelude::*;

verus! {

/// The settings page that "Open Voice Settings" opens.
pub const VOICE_SETTINGS_PAGE: &'static str = "Voice";

/// What the button says where the pointer rests on it.
pub const TOOLTIP: &'static str = "DontSpeak";

/// What the button says of an error where the pointer rests on it.
pub const ERROR_TOOLTIP: &'static str = "DontSpeak Error";

/// How the button's icon is coloured.
#[derive(Clone, Copy, Debug, PartialEq, Eq, Structural)]
pub enum ButtonColor {
    Disabled,
    Muted,
    Error,
    Accent,
}

/// The integration's actions that the button offers.
#[derive(Clone, Copy, Debug, PartialEq, Eq, Structural)]
pub enum ButtonAction {
    ToggleDictation,
    StopSpeech,
    /// Mutes the daemon's speech.
    Mute,
    Reconnect,
    OpenVoiceSettings,
}

/// What an action is called.
pub fn action_label(action: ButtonAction) -> (label: &'static str)
    ensures
        label@ == match action {
            ButtonAction::ToggleDictation => "Toggle Dictation"@,
            ButtonAction::StopSpeech => "Stop Speech"@,
            ButtonAction::Mute => "Mute"@,
            ButtonAction::Reconnect => "Reconnect"@,
            ButtonAction::OpenVoiceSettings => "Open Voice Settings"@,
        },
{
    match action {
        ButtonAction::ToggleDictation => "Toggle Dictation",
        ButtonAction::StopSpeech => "Stop Speech",
        ButtonAction::Mute => "Mute",
        ButtonAction::Reconnect => "Reconnect",
        ButtonAction::OpenVoiceSettings => "Open Voice Settings",
    }
}

/// An entry of the button's menu.
#[derive(Clone, Copy, Debug, PartialEq, Eq, Structural)]
pub enum MenuEntry {
    /// The menu's heading, [`TOOLTIP`].
    Header,
    Action(ButtonAction),
    Separator,
}

/// What the status bar shows.
#[derive(Debug, PartialEq, Eq)]
pub enum Rendered {
    /// Nothing.
    Hidden,
    /// A muted microphone in the colour of errors. A click shows this message,
    /// with the action to open the voice settings.
    Error { message: String },
    /// A microphone, with a dot where there is a second colour. The button
    /// pulses while the microphone is live.
    Button { icon: ButtonColor, indicator: Option<ButtonColor>, pulse: bool },
}

/// What a [`Rendered`] says.
pub enum RenderedView {
    Hidden,
    Error { message: Seq<char> },
    Button { icon: ButtonColor, indicator: Option<ButtonColor>, pulse: bool },
}

impl View for Rendered {
    type V = RenderedView;

    open spec fn view(&self) -> RenderedView {
        match self {
            Rendered::Hidden => RenderedView::Hidden,
            Rendered::Error { message } => RenderedView::Error { message: message@ },
            Rendered::Button { icon, indicator, pulse } => RenderedView::Button {
                icon: *icon,
                indicator: *indicator,
                pulse: *pulse,
            },
        }
    }
}

/// The button with what it shows: the status, where the integration
/// initialized, and the phase of the dictation, where there is a controller.
pub struct DontSpeakStatusButton {
    status: Option<Status>,
    phase: Option<DictationPhase>,
}

/// What a [`DontSpeakStatusButton`] shows.
pub struct StatusButtonView {
    pub status: Option<StatusView>,
    pub phase: Option<DictationPhase>,
}

impl View for DontSpeakStatusButton {
    type V = StatusButtonView;

    closed spec fn view(&self) -> StatusButtonView {
        StatusButtonView {
            status: match self.status {
                Some(status) => Some(status@),
                None => None,
            },
            phase: self.phase,
        }
    }
}

/// The button of a phase. Without a connection it is disabled, whatever the
/// phase was.
pub open spec fn button_of(connected: bool, phase: Option<DictationPhase>) -> RenderedView {
    if !connected {
        RenderedView::Button { icon: ButtonColor::Disabled, indicator: None, pulse: false }
    } else {
        match phase {
            None | Some(DictationPhase::Idle) => RenderedView::Button {
                icon: ButtonColor::Muted,
                indicator: None,
                pulse: false,
            },
            Some(DictationPhase::Recording) => RenderedView::Button {
                icon: ButtonColor::Error,
                indicator: Some(ButtonColor::Error),
                pulse: true,
            },
            Some(DictationPhase::AwaitingConfirm) => RenderedView::Button {
                icon: ButtonColor::Accent,
                indicator: Some(ButtonColor::Accent),
                pulse: false,
            },
        }
    }
}

/// What the status bar shows.
pub open spec fn rendered(button: StatusButtonView, shown: bool) -> RenderedView {
    if !shown {
        RenderedView::Hidden
    } else {
        match button.status {
            None | Some(StatusView::Disabled) | Some(StatusView::Absent) => RenderedView::Hidden,
            Some(StatusView::Error(error)) => RenderedView::Error {
                message: "DontSpeak can't connect: "@ + error,
            },
            Some(StatusView::Connecting) => button_of(false, button.phase),
            Some(StatusView::Connected) => button_of(true, button.phase),
        }
    }
}

/// The daemon's controls in the button's menu. Without a connection there is
/// nothing to control.
pub open spec fn controls(connected: bool) -> Seq<MenuEntry> {
    if connected {
        seq![
            MenuEntry::Action(ButtonAction::ToggleDictation),
            MenuEntry::Action(ButtonAction::StopSpeech),
            MenuEntry::Action(ButtonAction::Mute),
        ]
    } else {
        seq![MenuEntry::Action(ButtonAction::Reconnect)]
    }
}

/// The entries of the button's menu.
pub open spec fn menu_of(connected: bool) -> Seq<MenuEntry> {
    seq![MenuEntry::Header] + controls(connected) + seq![
        MenuEntry::Separator,
        MenuEntry::Action(ButtonAction::OpenVoiceSettings),
    ]
}

impl DontSpeakStatusButton {
    pub fn new(status: Option<Status>, phase: Option<DictationPhase>) -> (button:
        DontSpeakStatusButton)
        ensures
            button@.phase == phase,
            button@.status == match status {
                Some(status) => Some(status@),
                None => None,
            },
    {
        DontSpeakStatusButton { status, phase }
    }

    /// The button's menu.
    pub fn build_menu(&self) -> (menu: Vec<MenuEntry>)
        ensures
            menu@ == menu_of(self@.status == Some(StatusView::Connected)),
    {
        let connected = match &self.status {
            Some(status) => status.is_connected(),
            None => false,
        };
        let mut menu = vec![MenuEntry::Header];
        if connected {
            menu.push(MenuEntry::Action(ButtonAction::ToggleDictation));
            menu.push(MenuEntry::Action(ButtonAction::StopSpeech));
            menu.push(MenuEntry::Action(ButtonAction::Mute));
        } else {
            menu.push(MenuEntry::Action(ButtonAction::Reconnect));
        }
        menu.push(MenuEntry::Separator);
        menu.push(MenuEntry::Action(ButtonAction::OpenVoiceSettings));
        assert(menu@ =~= menu_of(connected));
        menu
    }

    fn render_error(&self, error: &str) -> (shown: Rendered)
        ensures
            shown@ == (RenderedView::Error { message: "DontSpeak can't connect: "@ + error@ }),
    {
        let mut message = "DontSpeak can't connect: ".to_string();
        message.append(error);
        Rendered::Error { message }
    }

    fn render_button(&self, connected: bool) -> (shown: Rendered)
        ensures
            shown@ == button_of(connected, self@.phase),
    {
        let phase = if connected {
            match self.phase {
                Some(phase) => phase,
                None => DictationPhase::Idle,
            }
        } else {
            DictationPhase::Idle
        };
        let (icon, indicator) = if !connected {
            (ButtonColor::Disabled, None)
        } else {
            match phase {
                DictationPhase::Idle => (ButtonColor::Muted, None),
                DictationPhase::Recording => (ButtonColor::Error, Some(ButtonColor::Error)),
                DictationPhase::AwaitingConfirm => (
                    ButtonColor::Accent,
                    Some(ButtonColor::Accent),
                ),
            }
        };
        Rendered::Button { icon, indicator, pulse: phase == DictationPhase::Recording }
    }

    /// What the status bar shows.
    pub fn render(&self, settings: &DontSpeakSettings) -> (shown: Rendered)
        ensures
            shown@ == rendered(self@, settings.status_bar_button),
    {
        if !settings.status_bar_button {
            return Rendered::Hidden;
        }
        match &self.status {
            None => Rendered::Hidden,
            Some(Status::Disabled) | Some(Status::Absent) => Rendered::Hidden,
            Some(Status::Error(error)) => self.render_error(error.as_str()),
            Some(Status::Connecting) => self.render_button(false),
            Some(Status::Connected) => self.render_button(true),
        }
    }
}

// --- Laws ---

/// Nothing is shown of an integration that is off or whose daemon is absent,
/// nor where the settings hide the button.
pub proof fn lemma_self_hiding(button: StatusButtonView, shown: bool)
    ensures
        rendered(button, shown) is Hidden <==> !shown || button.status is None || button.status
            == Some(StatusView::Disabled) || button.status == Some(StatusView::Absent),
{
}

/// The button pulses only while the microphone is live on a connection that is
/// up.
pub proof fn lemma_pulse(button: StatusButtonView, shown: bool)
    ensures
        rendered(button, shown) matches RenderedView::Button { pulse: true, .. } ==> button.status
            == Some(StatusView::Connected) && button.phase == Some(DictationPhase::Recording),
{
}

/// How the button looks, for each state of the connection: an error is told in
/// words; while the connection comes up the button is greyed; on a connection
/// that is up it is plain, red and pulsing while the microphone is live, and
/// accented while a text waits to be confirmed.
pub proof fn lemma_looks(button: StatusButtonView)
    ensures
        rendered(button, false) is Hidden,
        button.status is None ==> rendered(button, true) is Hidden,
        button.status matches Some(status) ==> match status {
            StatusView::Disabled => rendered(button, true) is Hidden,
            StatusView::Absent => rendered(button, true) is Hidden,
            StatusView::Error(error) => rendered(button, true) == (RenderedView::Error {
                message: "DontSpeak can't connect: "@ + error,
            }),
            StatusView::Connecting => rendered(button, true) == (RenderedView::Button {
                icon: ButtonColor::Disabled,
                indicator: None,
                pulse: false,
            }),
            StatusView::Connected => match button.phase {
                Some(DictationPhase::Recording) => rendered(button, true)
                    == (RenderedView::Button {
                    icon: ButtonColor::Error,
                    indicator: Some(ButtonColor::Error),
                    pulse: true,
                }),
                Some(DictationPhase::AwaitingConfirm) => rendered(button, true)
                    == (RenderedView::Button {
                    icon: ButtonColor::Accent,
                    indicator: Some(ButtonColor::Accent),
                    pulse: false,
                }),
                Some(DictationPhase::Idle) | None => rendered(button, true)
                    == (RenderedView::Button {
                    icon: ButtonColor::Muted,
                    indicator: None,
                    pulse: false,
                }),
            },
        },
{
}

/// The menu: its header, then the controls of a connection that is up, or else
/// only the one that brings it up, and behind a separator the settings.
pub proof fn lemma_menu()
    ensures
        menu_of(true) == seq![
            MenuEntry::Header,
            MenuEntry::Action(ButtonAction::ToggleDictation),
            MenuEntry::Action(ButtonAction::StopSpeech),
            MenuEntry::Action(ButtonAction::Mute),
            MenuEntry::Separator,
            MenuEntry::Action(ButtonAction::OpenVoiceSettings),
        ],
        menu_of(false) == seq![
            MenuEntry::Header,
            MenuEntry::Action(ButtonAction::Reconnect),
            MenuEntry::Separator,
            MenuEntry::Action(ButtonAction::OpenVoiceSettings),
        ],
{
}

} // verus!
