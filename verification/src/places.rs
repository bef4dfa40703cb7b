//! Where the daemon's files are.
//!
//! The environment is read elsewhere: what its variables hold goes in, and a
//! path comes out as its start and the components to join to that.

use vstd::prelude::*;

verus! {

/// The platforms whose directories differ.
#[derive(Clone, Copy, Debug, PartialEq, Eq, Structural)]
pub enum Platform {
    Windows,
    MacOs,
    Other,
}

/// An environment variable that may name a directory.
#[derive(Clone, Copy, Debug, PartialEq, Eq, Structural)]
pub enum Variable {
    Unset,
    /// It holds a path that is not absolute.
    Relative,
    /// It holds an absolute path.
    Absolute,
}

/// Where a path starts.
#[derive(Clone, Copy, Debug, PartialEq, Eq, Structural)]
pub enum Base {
    /// What the socket's own variable holds.
    SocketVariable,
    /// What the directory's variable holds.
    Variable,
    /// The home directory.
    Home,
}

/// A path: where it starts, and the components to join to that.
pub struct Location {
    pub base: Base,
    pub components: Vec<&'static str>,
}

impl View for Location {
    type V = (Base, Seq<Seq<char>>);

    open spec fn view(&self) -> (Base, Seq<Seq<char>>) {
        (self.base, self.components@.map_values(|component: &'static str| component@))
    }
}

/// The variable that overrides the socket's path.
pub const SOCKET_VARIABLE: &'static str = "ZED_DONTSPEAK_SOCKET";

/// Where the daemon keeps what belongs to the machine.
pub open spec fn state_location(platform: Platform, variable: Variable) -> (Base, Seq<Seq<char>>) {
    match platform {
        Platform::Windows => if variable is Unset {
            (Base::Home, seq!["AppData"@, "Local"@, "DontSpeak"@])
        } else {
            (Base::Variable, seq!["DontSpeak"@])
        },
        Platform::MacOs => (Base::Home, seq!["Library"@, "Application Support"@, "DontSpeak"@]),
        Platform::Other => if variable is Absolute {
            (Base::Variable, seq!["dontspeak"@])
        } else {
            (Base::Home, seq![".local"@, "state"@, "dontspeak"@])
        },
    }
}

/// Where the daemon keeps its configuration.
pub open spec fn config_location(platform: Platform, variable: Variable) -> (Base, Seq<Seq<char>>) {
    match platform {
        Platform::Windows => if variable is Unset {
            (Base::Home, seq!["AppData"@, "Roaming"@, "DontSpeak"@])
        } else {
            (Base::Variable, seq!["DontSpeak"@])
        },
        Platform::MacOs => (Base::Home, seq!["Library"@, "Application Support"@, "DontSpeak"@]),
        Platform::Other => if variable is Absolute {
            (Base::Variable, seq!["dontspeak"@])
        } else {
            (Base::Home, seq![".config"@, "dontspeak"@])
        },
    }
}

/// The variable that names the parent of the state directory.
pub fn state_variable(platform: Platform) -> (name: Option<&'static str>)
    ensures
        match platform {
            Platform::Windows => name matches Some(n) && n@ == "LOCALAPPDATA"@,
            Platform::MacOs => name is None,
            Platform::Other => name matches Some(n) && n@ == "XDG_STATE_HOME"@,
        },
{
    match platform {
        Platform::Windows => Some("LOCALAPPDATA"),
        Platform::MacOs => None,
        Platform::Other => Some("XDG_STATE_HOME"),
    }
}

/// The variable that names the parent of the configuration directory.
pub fn config_variable(platform: Platform) -> (name: Option<&'static str>)
    ensures
        match platform {
            Platform::Windows => name matches Some(n) && n@ == "APPDATA"@,
            Platform::MacOs => name is None,
            Platform::Other => name matches Some(n) && n@ == "XDG_CONFIG_HOME"@,
        },
{
    match platform {
        Platform::Windows => Some("APPDATA"),
        Platform::MacOs => None,
        Platform::Other => Some("XDG_CONFIG_HOME"),
    }
}

/// The daemon's directory for what belongs to the machine:
/// - Windows: `%LOCALAPPDATA%\DontSpeak`
/// - macOS: `~/Library/Application Support/DontSpeak`
/// - elsewhere: `$XDG_STATE_HOME/dontspeak`, else `~/.local/state/dontspeak`
pub fn state_dir(platform: Platform, variable: Variable) -> (location: Location)
    ensures
        location@ == state_location(platform, variable),
{
    let location = match (platform, variable) {
        (Platform::Windows, Variable::Unset) => Location {
            base: Base::Home,
            components: vec!["AppData", "Local", "DontSpeak"],
        },
        (Platform::Windows, _) => Location { base: Base::Variable, components: vec!["DontSpeak"] },
        (Platform::MacOs, _) => Location {
            base: Base::Home,
            components: vec!["Library", "Application Support", "DontSpeak"],
        },
        (Platform::Other, Variable::Absolute) => Location {
            base: Base::Variable,
            components: vec!["dontspeak"],
        },
        (Platform::Other, _) => Location {
            base: Base::Home,
            components: vec![".local", "state", "dontspeak"],
        },
    };
    assert(location@.1 =~= state_location(platform, variable).1);
    location
}

/// The daemon's directory for configuration:
/// - Windows: `%APPDATA%\DontSpeak`
/// - macOS: `~/Library/Application Support/DontSpeak`
/// - elsewhere: `$XDG_CONFIG_HOME/dontspeak`, else `~/.config/dontspeak`
pub fn config_dir(platform: Platform, variable: Variable) -> (location: Location)
    ensures
        location@ == config_location(platform, variable),
{
    let location = match (platform, variable) {
        (Platform::Windows, Variable::Unset) => Location {
            base: Base::Home,
            components: vec!["AppData", "Roaming", "DontSpeak"],
        },
        (Platform::Windows, _) => Location { base: Base::Variable, components: vec!["DontSpeak"] },
        (Platform::MacOs, _) => Location {
            base: Base::Home,
            components: vec!["Library", "Application Support", "DontSpeak"],
        },
        (Platform::Other, Variable::Absolute) => Location {
            base: Base::Variable,
            components: vec!["dontspeak"],
        },
        (Platform::Other, _) => Location {
            base: Base::Home,
            components: vec![".config", "dontspeak"],
        },
    };
    assert(location@.1 =~= config_location(platform, variable).1);
    location
}

/// The daemon's socket: `dontspeak.sock` in the state directory, unless the
/// socket's own variable is set.
pub fn socket_path(overridden: bool, platform: Platform, variable: Variable) -> (location: Location)
    ensures
        location@ == if overridden {
            (Base::SocketVariable, seq![])
        } else {
            let (base, components) = state_location(platform, variable);
            (base, components.push("dontspeak.sock"@))
        },
{
    if overridden {
        let location = Location { base: Base::SocketVariable, components: Vec::new() };
        assert(location@.1 =~= seq![]);
        return location;
    }
    let mut location = state_dir(platform, variable);
    let ghost dir = location@.1;
    location.components.push("dontspeak.sock");
    assert(location@.1 =~= dir.push("dontspeak.sock"@));
    location
}

/// Where the daemon keeps its state and its configuration. On Windows a variable
/// that is set counts whatever it holds; elsewhere only an absolute path does,
/// and on macOS no variable counts. Otherwise the place is under the home
/// directory, where the platform wants it.
pub proof fn lemma_places(variable: Variable)
    ensures
        variable is Unset ==> {
            &&& state_location(Platform::Windows, variable) == (
                Base::Home,
                seq!["AppData"@, "Local"@, "DontSpeak"@],
            )
            &&& config_location(Platform::Windows, variable) == (
                Base::Home,
                seq!["AppData"@, "Roaming"@, "DontSpeak"@],
            )
        },
        !(variable is Unset) ==> {
            &&& state_location(Platform::Windows, variable) == (
                Base::Variable,
                seq!["DontSpeak"@],
            )
            &&& config_location(Platform::Windows, variable) == (
                Base::Variable,
                seq!["DontSpeak"@],
            )
        },
        state_location(Platform::MacOs, variable) == (
            Base::Home,
            seq!["Library"@, "Application Support"@, "DontSpeak"@],
        ),
        config_location(Platform::MacOs, variable) == (
            Base::Home,
            seq!["Library"@, "Application Support"@, "DontSpeak"@],
        ),
        variable is Absolute ==> {
            &&& state_location(Platform::Other, variable) == (Base::Variable, seq!["dontspeak"@])
            &&& config_location(Platform::Other, variable) == (Base::Variable, seq!["dontspeak"@])
        },
        !(variable is Absolute) ==> {
            &&& state_location(Platform::Other, variable) == (
                Base::Home,
                seq![".local"@, "state"@, "dontspeak"@],
            )
            &&& config_location(Platform::Other, variable) == (
                Base::Home,
                seq![".config"@, "dontspeak"@],
            )
        },
{
}

} // verus!
