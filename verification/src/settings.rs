//! The `"dontspeak"` section of the settings.

use vstd::prelude::*;

verus! {

/// Which agent-panel agents have their replies narrated.
#[derive(Clone, Copy, Debug, PartialEq, Eq, Structural)]
pub enum NarratePanelAgents {
    /// Only agents without hook wiring of their own: hook-wired agents already
    /// narrate through the daemon's hooks.
    Auto,
    /// Every agent-panel agent.
    All,
    /// No agent-panel agent (`none` in the settings).
    Never,
}

impl Default for NarratePanelAgents {
    fn default() -> (choice: NarratePanelAgents)
        ensures
            choice == NarratePanelAgents::Auto,
    {
        NarratePanelAgents::Auto
    }
}

/// The section as it stands in a settings file, where any part may be left
/// out.
#[derive(Clone, Copy, Debug, PartialEq, Eq, Structural)]
pub struct DontSpeakSettingsContent {
    /// Whether to integrate with a locally running daemon. Without a running
    /// daemon this has no visible effect.
    pub enabled: Option<bool>,
    /// Which agent-panel agents have their replies narrated.
    pub narrate_panel_agents: Option<NarratePanelAgents>,
    /// Whether to show the status button in the status bar.
    pub status_bar_button: Option<bool>,
}

impl Default for DontSpeakSettingsContent {
    fn default() -> (content: DontSpeakSettingsContent)
        ensures
            content.enabled is None,
            content.narrate_panel_agents is None,
            content.status_bar_button is None,
    {
        DontSpeakSettingsContent {
            enabled: None,
            narrate_panel_agents: None,
            status_bar_button: None,
        }
    }
}

/// The resolved section.
#[derive(Clone, Copy, Debug, PartialEq, Eq, Structural)]
pub struct DontSpeakSettings {
    /// Whether to integrate with a locally running daemon.
    pub enabled: bool,
    /// Which agent-panel agents have their replies narrated.
    pub narrate_panel_agents: NarratePanelAgents,
    /// Whether to show the status button in the status bar.
    pub status_bar_button: bool,
}

/// A section in which every part is given, as it is once the defaults are
/// merged in.
pub open spec fn complete(content: Option<DontSpeakSettingsContent>) -> bool {
    &&& content is Some
    &&& content->0.enabled is Some
    &&& content->0.narrate_panel_agents is Some
    &&& content->0.status_bar_button is Some
}

impl DontSpeakSettings {
    /// The resolved section of complete settings.
    pub fn from_settings(content: &Option<DontSpeakSettingsContent>) -> (settings:
        DontSpeakSettings)
        requires
            complete(*content),
        ensures
            content->0.enabled == Some(settings.enabled),
            content->0.narrate_panel_agents == Some(settings.narrate_panel_agents),
            content->0.status_bar_button == Some(settings.status_bar_button),
    {
        let dontspeak = content.as_ref().unwrap();
        DontSpeakSettings {
            enabled: dontspeak.enabled.unwrap(),
            narrate_panel_agents: dontspeak.narrate_panel_agents.unwrap(),
            status_bar_button: dontspeak.status_bar_button.unwrap(),
        }
    }
}

/// Turns the status button off in a settings file, and leaves the rest of the
/// section as it was.
pub fn hide_status_bar_button(content: &mut Option<DontSpeakSettingsContent>)
    ensures
        *final(content) == Some(
            (DontSpeakSettingsContent {
                status_bar_button: Some(false),
                ..section_or_default(*old(content))
            }),
        ),
{
    let mut section = match *content {
        Some(section) => section,
        None => DontSpeakSettingsContent::default(),
    };
    section.status_bar_button = Some(false);
    *content = Some(section);
}

/// A section, or the empty section where there is none.
pub open spec fn section_or_default(
    content: Option<DontSpeakSettingsContent>,
) -> DontSpeakSettingsContent {
    match content {
        Some(section) => section,
        None => DontSpeakSettingsContent {
            enabled: None,
            narrate_panel_agents: None,
            status_bar_button: None,
        },
    }
}

/// A section that is given is kept as it is, and one that is not has no part.
pub proof fn lemma_section(content: Option<DontSpeakSettingsContent>)
    ensures
        content matches Some(section) ==> section_or_default(content) == section,
        content is None ==> {
            &&& section_or_default(content).enabled is None
            &&& section_or_default(content).narrate_panel_agents is None
            &&& section_or_default(content).status_bar_button is None
        },
        complete(content) <==> (content matches Some(section) && section.enabled is Some
            && section.narrate_panel_agents is Some && section.status_bar_button is Some),
{
}

} // verus!
