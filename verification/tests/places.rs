use dontspeak::places::{
    config_dir, config_variable, socket_path, state_dir, state_variable, Base, Location, Platform,
    Variable, SOCKET_VARIABLE,
};

fn shown(location: Location) -> (Base, String) {
    (location.base, location.components.join("/"))
}

#[test]
fn the_socket_is_in_the_state_directory() {
    assert_eq!(
        shown(socket_path(false, Platform::Other, Variable::Absolute)),
        (Base::Variable, "dontspeak/dontspeak.sock".into())
    );
    assert_eq!(
        shown(socket_path(false, Platform::Other, Variable::Unset)),
        (Base::Home, ".local/state/dontspeak/dontspeak.sock".into())
    );
    assert_eq!(
        shown(socket_path(false, Platform::MacOs, Variable::Absolute)),
        (
            Base::Home,
            "Library/Application Support/DontSpeak/dontspeak.sock".into()
        )
    );
    assert_eq!(
        shown(socket_path(false, Platform::Windows, Variable::Unset)),
        (Base::Home, "AppData/Local/DontSpeak/dontspeak.sock".into())
    );
}

#[test]
fn the_socket_variable_overrides_everything() {
    assert_eq!(SOCKET_VARIABLE, "ZED_DONTSPEAK_SOCKET");
    for platform in [Platform::Windows, Platform::MacOs, Platform::Other] {
        assert_eq!(
            shown(socket_path(true, platform, Variable::Absolute)),
            (Base::SocketVariable, "".into())
        );
    }
}

#[test]
fn a_relative_directory_counts_only_on_windows() {
    assert_eq!(
        shown(state_dir(Platform::Other, Variable::Relative)),
        (Base::Home, ".local/state/dontspeak".into())
    );
    assert_eq!(
        shown(config_dir(Platform::Other, Variable::Relative)),
        (Base::Home, ".config/dontspeak".into())
    );
    assert_eq!(
        shown(state_dir(Platform::Windows, Variable::Relative)),
        (Base::Variable, "DontSpeak".into())
    );
    assert_eq!(
        shown(config_dir(Platform::Windows, Variable::Relative)),
        (Base::Variable, "DontSpeak".into())
    );
}

#[test]
fn configuration_and_state_differ_where_the_platform_tells_them_apart() {
    assert_eq!(
        shown(config_dir(Platform::Windows, Variable::Unset)),
        (Base::Home, "AppData/Roaming/DontSpeak".into())
    );
    assert_eq!(
        shown(config_dir(Platform::Other, Variable::Absolute)),
        (Base::Variable, "dontspeak".into())
    );
    assert_eq!(
        shown(config_dir(Platform::MacOs, Variable::Unset)),
        shown(state_dir(Platform::MacOs, Variable::Unset))
    );
}

#[test]
fn each_platform_has_its_variables() {
    assert_eq!(state_variable(Platform::Windows), Some("LOCALAPPDATA"));
    assert_eq!(state_variable(Platform::MacOs), None);
    assert_eq!(state_variable(Platform::Other), Some("XDG_STATE_HOME"));
    assert_eq!(config_variable(Platform::Windows), Some("APPDATA"));
    assert_eq!(config_variable(Platform::MacOs), None);
    assert_eq!(config_variable(Platform::Other), Some("XDG_CONFIG_HOME"));
}
