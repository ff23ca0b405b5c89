//! What the shell's window and tray do: the start-up order, the tray menu, and
//! what each event of the window, the tray and the page calls for.

use crate::text;
use vstd::prelude::*;
use vstd::string::*;

verus! {

/// The menu item that shows the main window.
pub const MENU_SHOW: &'static str = "show";

/// The menu item that quits the shell.
pub const MENU_QUIT: &'static str = "quit";

/// The label of [`MENU_SHOW`].
pub const MENU_SHOW_LABEL: &'static str = "显示主窗口";

/// The label of [`MENU_QUIT`].
pub const MENU_QUIT_LABEL: &'static str = "退出";

/// A step of the shell's start.
#[derive(Debug, Clone, Copy, PartialEq, Eq, Structural)]
pub enum StartupStep {
    /// Open the main window on the loading page, and hear page loads.
    OpenWindow,
    /// Give the window its default size, over any frame that the system
    /// restored.
    ResizeWindow,
    /// Write the desktop defaults to the settings file.
    WriteDefaults,
    /// Hear the window's events and the readiness event.
    ListenToEvents,
    /// Launch the service.
    LaunchService,
    /// Build the tray icon and its menu.
    BuildTray,
}

/// The steps of the shell's start, in order. The defaults are written before
/// the service is launched, so that the service reads them.
pub fn startup_steps() -> (steps: Vec<StartupStep>)
    ensures
        steps@ == seq![
            StartupStep::OpenWindow,
            StartupStep::ResizeWindow,
            StartupStep::WriteDefaults,
            StartupStep::ListenToEvents,
            StartupStep::LaunchService,
            StartupStep::BuildTray,
        ],
{
    vec![
        StartupStep::OpenWindow,
        StartupStep::ResizeWindow,
        StartupStep::WriteDefaults,
        StartupStep::ListenToEvents,
        StartupStep::LaunchService,
        StartupStep::BuildTray,
    ]
}

/// An entry of the tray menu.
#[derive(Debug, PartialEq, Eq)]
pub enum MenuEntry {
    Item { id: String, label: String },
    Separator,
}

/// A [`MenuEntry`] with its texts as sequences of characters.
pub enum MenuLine {
    Item { id: Seq<char>, label: Seq<char> },
    Separator,
}

impl View for MenuEntry {
    type V = MenuLine;

    open spec fn view(&self) -> MenuLine {
        match self {
            MenuEntry::Item { id, label } => MenuLine::Item { id: id@, label: label@ },
            MenuEntry::Separator => MenuLine::Separator,
        }
    }
}

/// The tray menu.
pub open spec fn tray_menu_lines() -> Seq<MenuLine> {
    seq![
        MenuLine::Item { id: MENU_SHOW@, label: MENU_SHOW_LABEL@ },
        MenuLine::Separator,
        MenuLine::Item { id: MENU_QUIT@, label: MENU_QUIT_LABEL@ },
    ]
}

/// The tray menu: show the main window, and quit.
pub fn tray_menu() -> (menu: Vec<MenuEntry>)
    ensures
        menu@.map_values(|entry: MenuEntry| entry@) == tray_menu_lines(),
{
    let mut menu: Vec<MenuEntry> = Vec::new();
    menu.push(
        MenuEntry::Item { id: MENU_SHOW.to_owned(), label: MENU_SHOW_LABEL.to_owned() },
    );
    menu.push(MenuEntry::Separator);
    menu.push(
        MenuEntry::Item { id: MENU_QUIT.to_owned(), label: MENU_QUIT_LABEL.to_owned() },
    );
    assert(menu@.map_values(|entry: MenuEntry| entry@) =~= tray_menu_lines());
    menu
}

/// The button of a click on the tray icon.
#[derive(Debug, Clone, Copy, PartialEq, Eq, Structural)]
pub enum TrayButton {
    Left,
    Right,
    Middle,
}

/// An event of the window, the tray or the page.
#[derive(Debug, PartialEq, Eq)]
pub enum UiEvent {
    /// The tray menu item with this id was chosen.
    MenuChosen(String),
    /// The tray icon was clicked; `released` tells the end of a click from its
    /// start.
    TrayClicked { button: TrayButton, released: bool },
    /// The main window was asked to close.
    CloseRequested,
    /// A page load has started.
    PageLoadStarted,
    /// A page load has finished.
    PageLoadFinished,
    /// The service was reported ready, with this URL.
    ServiceReady(String),
    /// Anything else.
    Other,
}

/// What an event calls for.
#[derive(Debug, PartialEq, Eq)]
pub enum UiAction {
    /// Show the main window and give it the focus.
    ShowWindow,
    /// Hide the main window.
    HideWindow,
    /// Keep the main window from closing.
    PreventClose,
    /// Run the desktop adapter script in the page.
    InjectAdapter,
    /// Point the main window at a URL.
    Navigate(String),
    /// Quit the shell.
    Quit,
}

/// What `event` calls for. The tray menu shows the window and quits, and a
/// finished left click on the tray icon shows the window too. Closing the
/// window hides it instead. Every finished page load runs the adapter. A
/// readiness report points the window at its URL, if it holds one.
pub open spec fn called_for(event: UiEvent) -> Seq<UiAction> {
    match event {
        UiEvent::MenuChosen(id) => if id@ == MENU_SHOW@ {
            seq![UiAction::ShowWindow]
        } else if id@ == MENU_QUIT@ {
            seq![UiAction::Quit]
        } else {
            seq![]
        },
        UiEvent::TrayClicked { button, released } => if button == TrayButton::Left && released {
            seq![UiAction::ShowWindow]
        } else {
            seq![]
        },
        UiEvent::CloseRequested => seq![UiAction::PreventClose, UiAction::HideWindow],
        UiEvent::PageLoadFinished => seq![UiAction::InjectAdapter],
        UiEvent::ServiceReady(url) => if url@.len() > 0 {
            seq![UiAction::Navigate(url)]
        } else {
            seq![]
        },
        UiEvent::PageLoadStarted | UiEvent::Other => seq![],
    }
}

/// What `event` calls for, in order.
pub fn ui_actions(event: UiEvent) -> (actions: Vec<UiAction>)
    ensures
        actions@ == called_for(event),
{
    let mut actions: Vec<UiAction> = Vec::new();
    match event {
        UiEvent::MenuChosen(id) => {
            if text::same_text(id.as_str(), MENU_SHOW) {
                actions.push(UiAction::ShowWindow);
            } else if text::same_text(id.as_str(), MENU_QUIT) {
                actions.push(UiAction::Quit);
            }
        },
        UiEvent::TrayClicked { button, released } => {
            if button == TrayButton::Left && released {
                actions.push(UiAction::ShowWindow);
            }
        },
        UiEvent::CloseRequested => {
            actions.push(UiAction::PreventClose);
            actions.push(UiAction::HideWindow);
        },
        UiEvent::PageLoadFinished => {
            actions.push(UiAction::InjectAdapter);
        },
        UiEvent::ServiceReady(url) => {
            if !url.as_str().is_empty() {
                actions.push(UiAction::Navigate(url));
            }
        },
        UiEvent::PageLoadStarted => {},
        UiEvent::Other => {},
    }
    assert(actions@ =~= called_for(event));
    actions
}

/// The tray menu owns show and quit: each of its items does something, and
/// nothing else than the quit item quits.
pub proof fn the_tray_menu_owns_the_quit(event: UiEvent)
    ensures
        called_for(event).contains(UiAction::Quit) <==> (event matches UiEvent::MenuChosen(id)
            && id@ == MENU_QUIT@),
        event matches UiEvent::MenuChosen(id) ==> (called_for(event).len() > 0 <==> exists|
            label: Seq<char>,
        | tray_menu_lines().contains(MenuLine::Item { id: id@, label })),
{
    reveal_strlit("show");
    reveal_strlit("quit");
    assert(MENU_SHOW@[0] != MENU_QUIT@[0]);
    if let UiEvent::MenuChosen(id) = event {
        let lines = tray_menu_lines();
        assert(lines[0] == MenuLine::Item { id: MENU_SHOW@, label: MENU_SHOW_LABEL@ });
        assert(lines[2] == MenuLine::Item { id: MENU_QUIT@, label: MENU_QUIT_LABEL@ });
        if id@ == MENU_QUIT@ {
            assert(called_for(event)[0] == UiAction::Quit);
        }
    }
}

/// Each action has its own cause, and each cause its own action: the window is
/// shown for the show item and for a left click that is over, kept and hidden
/// for a close, given the adapter for a page load that is over, and navigated
/// for a readiness report with a URL. An event calls for nothing twice.
pub proof fn every_action_has_its_cause(event: UiEvent, url: String)
    ensures
        called_for(event).contains(UiAction::ShowWindow) <==> {
            ||| event matches UiEvent::MenuChosen(id) && id@ == "show"@
            ||| event == (UiEvent::TrayClicked { button: TrayButton::Left, released: true })
        },
        called_for(event).contains(UiAction::Quit) <==> (event matches UiEvent::MenuChosen(id)
            && id@ == "quit"@),
        called_for(event).contains(UiAction::PreventClose) <==> event is CloseRequested,
        called_for(event).contains(UiAction::HideWindow) <==> event is CloseRequested,
        called_for(event).contains(UiAction::InjectAdapter) <==> event is PageLoadFinished,
        called_for(event).contains(UiAction::Navigate(url)) <==> event == UiEvent::ServiceReady(url)
            && url@.len() > 0,
        event is CloseRequested ==> called_for(event) == seq![
            UiAction::PreventClose,
            UiAction::HideWindow,
        ],
        !(event is CloseRequested) ==> called_for(event).len() <= 1,
{
    reveal_strlit("show");
    reveal_strlit("quit");
    let actions = called_for(event);
    assert("show"@[0] != "quit"@[0]);
    assert(actions.len() > 0 ==> actions.contains(actions[0]));
    assert(actions.len() > 1 ==> actions.contains(actions[1]));
}

/// The tray menu: the show item, a separator and the quit item. What its
/// items call for is what their names say.
pub proof fn the_tray_menu_shows_and_quits(id: String)
    ensures
        tray_menu_lines() == seq![
            MenuLine::Item { id: "show"@, label: "显示主窗口"@ },
            MenuLine::Separator,
            MenuLine::Item { id: "quit"@, label: "退出"@ },
        ],
        id@ == "show"@ ==> called_for(UiEvent::MenuChosen(id)) == seq![UiAction::ShowWindow],
        id@ == "quit"@ ==> called_for(UiEvent::MenuChosen(id)) == seq![UiAction::Quit],
{
    reveal_strlit("show");
    reveal_strlit("quit");
    assert("show"@[0] != "quit"@[0]);
}

/// A menu line is made of the texts of its entry.
pub proof fn a_menu_line_is_its_texts(entry: MenuEntry)
    ensures
        match entry {
            MenuEntry::Item { id, label } => entry@ matches MenuLine::Item { id: i, label: l } && i
                == id@ && l == label@,
            MenuEntry::Separator => entry@ is Separator,
        },
{
}

} // verus!
