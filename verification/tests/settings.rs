use dsh_desktop::settings::{
    ensure_desktop_settings, has_namespace, settings_path, DESKTOP_NAMESPACE,
    DESKTOP_SETTINGS_BLOCK,
};

#[test]
fn defaults_follow_the_settings() {
    assert_eq!(
        ensure_desktop_settings(Some("theme: dark\n".to_string())),
        Some("theme: dark\n\ndsh-better-sidebar:\n  openByDefault: false\n".to_string())
    );
    assert_eq!(
        ensure_desktop_settings(Some("theme: dark \u{3000}\n\t\r\n".to_string())),
        Some("theme: dark\n\ndsh-better-sidebar:\n  openByDefault: false\n".to_string())
    );
}

#[test]
fn an_empty_file_gets_the_defaults() {
    let expected = Some("\n\ndsh-better-sidebar:\n  openByDefault: false\n".to_string());
    assert_eq!(ensure_desktop_settings(Some(String::new())), expected);
    assert_eq!(ensure_desktop_settings(Some(" \n\n".to_string())), expected);
}

#[test]
fn an_unreadable_file_is_left_alone() {
    assert_eq!(ensure_desktop_settings(None), None);
}

#[test]
fn own_settings_win() {
    for content in [
        "dsh-better-sidebar:\n  openByDefault: true\n",
        "\"dsh-better-sidebar\":\n  openByDefault: true\n",
        "'dsh-better-sidebar':\n  openByDefault: true\n",
        "a: b\ndsh-better-sidebar:",
        "a: b\r\ndsh-better-sidebar \t: {}\r\n",
        "\n\"dsh-better-sidebar\" : {}",
    ] {
        assert!(has_namespace(content));
        assert_eq!(ensure_desktop_settings(Some(content.to_string())), None);
    }
}

#[test]
fn the_namespace_is_found_in_every_layout() {
    for content in [
        "\u{feff}dsh-better-sidebar: {}\n",
        "\u{feff}a: b\n'dsh-better-sidebar': {}\n",
        " dsh-better-sidebar:\n   openByDefault: true\n",
        "# mine\n\n  a: b\n  \"dsh-better-sidebar\": {}\n",
        "%YAML 1.2\n---\n  a: b\n  dsh-better-sidebar: {}\n",
        "{dsh-better-sidebar: {openByDefault: true}}\n",
        "# mine\n{ a: b,\"dsh-better-sidebar\": {} }\n",
        "{\n\t\"a\": 1,\n\t\"dsh-better-sidebar\" : {}\n}\n",
        "--- {a: b, 'dsh-better-sidebar': {}}\n",
        "{a: {dsh-better-sidebar: x}}",
    ] {
        assert!(has_namespace(content), "{}", content);
        assert_eq!(ensure_desktop_settings(Some(content.to_string())), None);
    }
}

#[test]
fn a_mention_is_no_namespace() {
    for content in [
        "# dsh-better-sidebar: off\n",
        "other:\n  dsh-better-sidebar: x\n",
        "note: dsh-better-sidebar: x",
        "dsh-better-sidebar",
        "dsh-better-sidebar\n: x",
        "dsh-better-sidebar2: x",
        "my-dsh-better-sidebar: x",
        "\"dsh-better-sidebar: x",
        "'dsh-better-sidebar\": x",
        "\"'dsh-better-sidebar'\": x",
        "  a: b\n    dsh-better-sidebar: x\n",
        "  # c\na:\n  dsh-better-sidebar: x\n",
        "\u{feff}# dsh-better-sidebar: x\n",
        "{my-dsh-better-sidebar: x}",
        "{dsh-better-sidebar}",
        "- {dsh-better-sidebar: x}",
        "",
    ] {
        assert!(!has_namespace(content), "{}", content);
        assert!(ensure_desktop_settings(Some(content.to_string())).is_some());
    }
    assert_eq!(
        ensure_desktop_settings(Some("# see dsh-better-sidebar: docs\n".to_string())),
        Some(
            "# see dsh-better-sidebar: docs\n\ndsh-better-sidebar:\n  openByDefault: false\n"
                .to_string()
        )
    );
}

#[test]
fn defaults_are_written_once() {
    for content in ["", "a: b", "a: b\n\n", "dsh-better-sidebar", "# dsh-better-sidebar: x", "\u{feff}",
        "\u{feff} a: b", "   a: b", "{a: b}"] {
        let next = ensure_desktop_settings(Some(content.to_string())).unwrap();
        assert!(next.starts_with(content.trim_end()));
        assert!(next.ends_with(DESKTOP_SETTINGS_BLOCK));
        assert!(next.contains(DESKTOP_NAMESPACE));
        assert!(has_namespace(&next));
        assert_eq!(ensure_desktop_settings(Some(next)), None);
    }
}

#[test]
fn settings_live_in_the_profile() {
    assert_eq!(settings_path("/Users/me"), "/Users/me/.dsh/settings.yaml");
    assert_eq!(settings_path("/"), "/.dsh/settings.yaml");
    assert_eq!(settings_path(""), ".dsh/settings.yaml");
}
