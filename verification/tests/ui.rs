use dsh_desktop::ui::{
    startup_steps, tray_menu, ui_actions, MenuEntry, StartupStep, TrayButton, UiAction, UiEvent,
};

#[test]
fn defaults_are_written_before_the_launch() {
    let steps = startup_steps();
    assert_eq!(steps.len(), 6);
    let at = |step: StartupStep| steps.iter().position(|s| *s == step).unwrap();
    assert_eq!(at(StartupStep::OpenWindow), 0);
    assert!(at(StartupStep::WriteDefaults) < at(StartupStep::LaunchService));
    assert_eq!(at(StartupStep::BuildTray), 5);
}

#[test]
fn the_menu_shows_and_quits() {
    let menu = tray_menu();
    assert_eq!(
        menu,
        vec![
            MenuEntry::Item { id: "show".to_string(), label: "显示主窗口".to_string() },
            MenuEntry::Separator,
            MenuEntry::Item { id: "quit".to_string(), label: "退出".to_string() },
        ]
    );
    let chosen = |id: &str| ui_actions(UiEvent::MenuChosen(id.to_string()));
    assert_eq!(chosen("show"), vec![UiAction::ShowWindow]);
    assert_eq!(chosen("quit"), vec![UiAction::Quit]);
    assert_eq!(chosen("quit "), vec![]);
    assert_eq!(chosen("sho"), vec![]);
    assert_eq!(chosen(""), vec![]);
}

#[test]
fn a_finished_left_click_shows_the_window() {
    let clicked =
        |button: TrayButton, released: bool| ui_actions(UiEvent::TrayClicked { button, released });
    assert_eq!(clicked(TrayButton::Left, true), vec![UiAction::ShowWindow]);
    assert_eq!(clicked(TrayButton::Left, false), vec![]);
    assert_eq!(clicked(TrayButton::Right, true), vec![]);
    assert_eq!(clicked(TrayButton::Middle, true), vec![]);
}

#[test]
fn closing_hides_to_the_tray() {
    assert_eq!(
        ui_actions(UiEvent::CloseRequested),
        vec![UiAction::PreventClose, UiAction::HideWindow]
    );
    assert_eq!(ui_actions(UiEvent::Other), vec![]);
}

#[test]
fn page_loads_run_the_adapter() {
    assert_eq!(ui_actions(UiEvent::PageLoadFinished), vec![UiAction::InjectAdapter]);
    assert_eq!(ui_actions(UiEvent::PageLoadStarted), vec![]);
}

#[test]
fn readiness_navigates() {
    assert_eq!(
        ui_actions(UiEvent::ServiceReady("http://a".to_string())),
        vec![UiAction::Navigate("http://a".to_string())]
    );
    assert_eq!(ui_actions(UiEvent::ServiceReady(String::new())), vec![]);
}
