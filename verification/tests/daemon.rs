use wlr_trayd::events::{Effect, Event, UpdateEvent};
use wlr_trayd::icon::{IconAction, IconEvent};
use wlr_trayd::menu::{
    find_submenu, menu_item_to_json, menu_to_json, MenuItem, MenuType, ToggleState, ToggleType,
    TrayMenu,
};
use wlr_trayd::pixmap::IconPixmap;
use wlr_trayd::protocol::{
    menu_line, parse_request, read_request, ActivateRequest, LineError, Reply, Request,
};
use wlr_trayd::registry::{State, StatusNotifierItem};

fn item(title: &str) -> StatusNotifierItem {
    StatusNotifierItem {
        title: Some(title.to_string()),
        icon_name: None,
        icon_pixmap: None,
        icon_theme_path: None,
        menu: Some("/Menu".to_string()),
    }
}

fn entry(id: i32, label: &str, submenu: Vec<MenuItem>) -> MenuItem {
    MenuItem {
        id,
        menu_type: MenuType::Standard,
        label: Some(label.to_string()),
        enabled: true,
        visible: true,
        toggle_type: ToggleType::CannotBeToggled,
        toggle_state: ToggleState::On,
        submenu,
    }
}

fn menu() -> TrayMenu {
    let mut hidden = entry(8, "Hidden", vec![]);
    hidden.visible = false;
    let mut line = entry(4, "", vec![]);
    line.menu_type = MenuType::Separator;
    line.label = None;
    line.enabled = false;
    TrayMenu {
        id: 0,
        submenus: vec![
            entry(1, "Open", vec![entry(2, "Recent", vec![entry(3, "Last", vec![])]), entry(9, "All", vec![])]),
            line,
            hidden,
            entry(3, "Other", vec![entry(-5, "Below", vec![])]),
        ],
    }
}

fn answer(st: &State, line: &str) -> Reply {
    st.handle_client(line.as_bytes()).unwrap()
}

fn text(reply: Reply) -> String {
    match reply {
        Reply::Text(t) => t,
        other => panic!("{:?}", other),
    }
}

#[test]
fn ids_are_stable_and_monotonic() {
    let mut st = State::new();
    assert_eq!(st.upsert(":1", item("b")), 1);
    assert_eq!(st.upsert(":2", item("a")), 2);
    assert_eq!(st.upsert(":1", item("c")), 1);
    assert_eq!(st.get(":1").unwrap().title, "c");
    assert!(st.remove(":1").is_some());
    assert!(st.remove(":1").is_none());
    assert!(st.get(":1").is_none());
    assert!(st.with_id(1).is_none());
    assert_eq!(st.upsert(":1", item("c")), 3);
    assert_eq!(st.address_of(3).unwrap(), ":1");
    assert_eq!(st.address_of(2).unwrap(), ":2");
    assert!(st.address_of(0).is_none());
    assert!(st.has_room(":9"));
}

#[test]
fn upsert_keeps_what_the_news_does_not_speak_of() {
    let mut st = State::new();
    st.upsert(":1", item("a"));
    st.apply(Event::Update(":1".to_string(), UpdateEvent::Menu(menu())));
    st.apply(Event::Update(":1".to_string(), UpdateEvent::Tooltip(Some("tip".to_string()))));
    st.extract_icon(":1", &None, IconEvent::NameResolved(Some(b"/x.png".to_vec())));
    let mut news = item("b");
    news.title = None;
    news.menu = None;
    st.upsert(":1", news);
    let t = st.get(":1").unwrap();
    assert_eq!((t.id, t.title.as_str(), t.tooltip.as_str()), (1, "", "tip"));
    assert_eq!(t.icon_path, b"/x.png".to_vec());
    assert!(t.menu.is_some() && t.menu_path.is_none());
}

#[test]
fn adding_and_removing_leaves_the_other_trays() {
    let mut st = State::new();
    st.upsert(":1", item("a"));
    let before = st.list();
    assert!(matches!(st.apply(Event::Add(":2".to_string(), item("b"))), Effect::ExtractIcon(a) if a == ":2"));
    st.extract_icon(":2", &None, IconEvent::PixmapWritten(true));
    match st.apply(Event::Remove(":2".to_string())) {
        Effect::RemoveFile(path) => assert_eq!(path, b"/tmp/ewwii_tray/2.png".to_vec()),
        other => panic!("{:?}", other),
    }
    assert_eq!(st.list(), before);
    assert!(matches!(st.apply(Event::Remove(":2".to_string())), Effect::Nothing));
}

#[test]
fn events_change_one_tray() {
    let mut st = State::new();
    st.upsert(":1", item("a"));
    st.upsert(":2", item("b"));
    let icon = UpdateEvent::Icon { icon_name: Some("mail".to_string()), icon_pixmap: None };
    assert!(matches!(st.apply(Event::Update(":1".to_string(), icon)), Effect::ExtractIcon(a) if a == ":1"));
    assert!(matches!(
        st.apply(Event::Update(":1".to_string(), UpdateEvent::Title(Some("z".to_string())))),
        Effect::Nothing
    ));
    st.apply(Event::Update(":1".to_string(), UpdateEvent::Other));
    let t = st.get(":1").unwrap();
    assert_eq!((t.title.as_str(), t.icon_name.as_deref()), ("z", Some("mail")));
    st.apply(Event::Update(":1".to_string(), UpdateEvent::Title(None)));
    assert_eq!(st.get(":1").unwrap().title, "");
    assert_eq!(st.get(":2").unwrap().title, "b");
    assert!(st.get(":2").unwrap().icon_name.is_none());
    let icon = UpdateEvent::Icon { icon_name: None, icon_pixmap: None };
    assert!(matches!(st.apply(Event::Update(":3".to_string(), icon)), Effect::Nothing));
    assert!(st.get(":3").is_none());
}

#[test]
fn seeded_tray_has_its_menu() {
    let mut st = State::new();
    assert_eq!(st.seed(":1", item("a"), Some(menu())), 1);
    assert!(st.get(":1").unwrap().menu.is_some());
    assert_eq!(st.seed(":1", item("a"), None), 1);
    assert!(st.get(":1").unwrap().menu.is_none());
}

#[test]
fn list_is_sorted_by_title_and_then_by_id() {
    let mut st = State::new();
    st.upsert(":1", item("mail"));
    st.upsert(":2", item("Mail"));
    st.upsert(":3", item("ma"));
    st.upsert(":4", item("mail"));
    st.upsert(":5", item("\u{e9}"));
    st.upsert(":6", item(""));
    st.extract_icon(":1", &None, IconEvent::NameResolved(Some(b"/i/mail.png".to_vec())));
    st.apply(Event::Update(":4".to_string(), UpdateEvent::Menu(menu())));
    assert_eq!(
        text(answer(&st, "list\n")),
        "6\t\t\t0\n2\tMail\t\t0\n3\tma\t\t0\n1\tmail\t/i/mail.png\t0\n4\tmail\t\t1\n5\t\u{e9}\t\t0\n"
    );
}

#[test]
fn empty_list_is_empty() {
    assert_eq!(text(answer(&State::new(), "list")), "");
}

#[test]
fn order_survives_reopening() {
    let mut st = State::new();
    for (a, t) in [(":1", "b"), (":2", "a"), (":3", "c"), (":4", "b")] {
        st.upsert(a, item(t));
    }
    assert_eq!(st.list(), "2\ta\t\t0\n1\tb\t\t0\n4\tb\t\t0\n3\tc\t\t0\n");
    st.remove(":1");
    st.upsert(":1", item("b"));
    assert_eq!(st.list(), "2\ta\t\t0\n4\tb\t\t0\n5\tb\t\t0\n3\tc\t\t0\n");
}

#[test]
fn icon_paths_that_are_no_text_are_shown_with_replacements() {
    let mut st = State::new();
    st.upsert(":1", item("a"));
    st.extract_icon(":1", &None, IconEvent::NameResolved(Some(b"/i/\xff.png".to_vec())));
    assert_eq!(st.list(), "1\ta\t/i/\u{fffd}.png\t0\n");
    st.extract_icon(":1", &None, IconEvent::NameResolved(Some("/i/\u{e9}.png".as_bytes().to_vec())));
    assert_eq!(st.list(), "1\ta\t/i/\u{e9}.png\t0\n");
}

#[test]
fn pixmap_wins_over_name() {
    let mut st = State::new();
    let mut news = item("a");
    news.icon_name = Some("mail".to_string());
    news.icon_theme_path = Some("/theme".to_string());
    news.icon_pixmap = Some(vec![
        IconPixmap { width: 1, height: 1, pixels: vec![0; 4] },
        IconPixmap { width: 2, height: 2, pixels: vec![0; 16] },
    ]);
    st.upsert(":1", news);
    match st.extract_icon(":1", &None, IconEvent::Start) {
        IconAction::WritePixmap { pixmap, path } => {
            assert_eq!(pixmap, 1);
            assert_eq!(path, b"/tmp/ewwii_tray/1.png".to_vec());
        }
        other => panic!("{:?}", other),
    }
    assert!(matches!(st.extract_icon(":1", &None, IconEvent::PixmapWritten(true)), IconAction::Done));
    assert_eq!(st.get(":1").unwrap().icon_path, b"/tmp/ewwii_tray/1.png".to_vec());
    match st.extract_icon(":1", &None, IconEvent::PixmapWritten(false)) {
        IconAction::ResolveName { name, theme_path } => {
            assert_eq!((name.as_str(), theme_path.as_deref()), ("mail", Some("/theme")));
        }
        other => panic!("{:?}", other),
    }
    assert!(matches!(st.extract_icon(":1", &None, IconEvent::NameResolved(None)), IconAction::Done));
    assert_eq!(st.get(":1").unwrap().icon_path, b"".to_vec());
}

#[test]
fn tray_without_pixmap_and_name_has_no_icon() {
    let mut st = State::new();
    st.upsert(":1", item("a"));
    st.extract_icon(":1", &None, IconEvent::NameResolved(Some(b"/x".to_vec())));
    assert!(matches!(st.extract_icon(":1", &None, IconEvent::Start), IconAction::Done));
    assert_eq!(st.get(":1").unwrap().icon_path, b"".to_vec());
    assert!(matches!(st.extract_icon(":7", &None, IconEvent::Start), IconAction::Done));
}

#[test]
fn commands_are_read() {
    assert_eq!(parse_request("list\n"), Request::List);
    assert_eq!(parse_request("activate 3\n"), Request::Activate(3));
    assert_eq!(parse_request("  secondary\t4 extra\n"), Request::Secondary(4));
    assert_eq!(parse_request("menu 5"), Request::Menu(5));
    assert_eq!(parse_request("menu"), Request::Menu(0));
    assert_eq!(parse_request("menu -1"), Request::Menu(0));
    assert_eq!(parse_request("menu-flat 5"), Request::MenuFlat { id: 5, parent: 0 });
    assert_eq!(parse_request("menu-flat 5 -2"), Request::MenuFlat { id: 5, parent: -2 });
    assert_eq!(parse_request("menu-flat x 2"), Request::MenuFlat { id: 0, parent: 2 });
    assert_eq!(parse_request("menu-click 5 x"), Request::MenuClick { id: 5, submenu: 0 });
    assert_eq!(parse_request("List"), Request::Unknown);
    assert_eq!(parse_request("\n"), Request::Unknown);
    assert_eq!(parse_request(""), Request::Unknown);
}

#[test]
fn activations_go_to_the_address_of_the_tray() {
    let mut st = State::new();
    st.upsert(":1.5", item("a"));
    match answer(&st, "activate 1\n") {
        Reply::Activate(ActivateRequest::Default { address, x, y }) => {
            assert_eq!((address.as_str(), x, y), (":1.5", 0, 0));
        }
        other => panic!("{:?}", other),
    }
    match answer(&st, "secondary 1\n") {
        Reply::Activate(ActivateRequest::Secondary { address, x, y }) => {
            assert_eq!((address.as_str(), x, y), (":1.5", 0, 0));
        }
        other => panic!("{:?}", other),
    }
    match answer(&st, "menu-click 1 -8\n") {
        Reply::Activate(ActivateRequest::MenuItem { address, menu_path, submenu_id }) => {
            assert_eq!((address.as_str(), menu_path.as_str(), submenu_id), (":1.5", "/Menu", -8));
        }
        other => panic!("{:?}", other),
    }
}

#[test]
fn commands_that_name_no_tray_reach_nobody() {
    let mut st = State::new();
    let mut bare = item("a");
    bare.menu = None;
    st.upsert(":1", bare);
    for line in ["activate", "activate x", "secondary 2", "menu-click 9 1", "menu-click 1 1", "menu-flat 1", "menu-flat 7", "nonsense 1", ""] {
        assert!(matches!(answer(&st, line), Reply::Nothing), "{:?}", line);
    }
    assert!(matches!(answer(&st, "menu 1"), Reply::Menu(None)));
    assert!(matches!(answer(&st, "menu 9"), Reply::Menu(None)));
}

#[test]
fn flat_menu_shows_the_visible_entries() {
    let mut st = State::new();
    st.seed(":1", item("a"), Some(menu()));
    let top = "1\tOpen\t1\t1\t0\n4\t\t0\t0\t1\n3\tOther\t1\t1\t0\n";
    assert_eq!(text(answer(&st, "menu-flat 1")), top);
    assert_eq!(text(answer(&st, "menu-flat 1 1")), "2\tRecent\t1\t1\t0\n9\tAll\t1\t0\t0\n");
    assert_eq!(text(answer(&st, "menu-flat 1 77")), top);
    assert_eq!(text(answer(&st, "menu-flat 1 9")), "");
    assert_eq!(text(answer(&st, "menu-flat 1 3")), "");
}

#[test]
fn first_entry_with_the_id_is_found() {
    let m = menu();
    assert_eq!(find_submenu(&m.submenus, 2).unwrap()[0].label.as_deref(), Some("Last"));
    assert!(find_submenu(&m.submenus, 3).unwrap().is_empty());
    assert!(find_submenu(&m.submenus, 42).is_none());
    assert!(find_submenu(&m.submenus, -5).unwrap().is_empty());
}

#[test]
fn shown_menu_has_the_shape_of_the_menu() {
    let m = menu();
    let shown = menu_to_json(&m);
    assert_eq!(shown.len(), 4);
    assert_eq!((shown[0].id, shown[0].label.as_str(), shown[0].children.len()), (1, "Open", 2));
    assert_eq!(shown[0].children[0].children[0].label, "Last");
    assert!(shown[1].separator && !shown[1].enabled && shown[1].label.is_empty());
    assert!(!shown[2].visible && shown[2].enabled);
}

#[test]
fn toggles_are_numbered() {
    let toggle = |toggle_type, toggle_state| {
        let mut m = entry(1, "t", vec![]);
        m.toggle_type = toggle_type;
        m.toggle_state = toggle_state;
        menu_item_to_json(&m).toggle
    };
    assert_eq!(toggle(ToggleType::Checkmark, ToggleState::Off), 1);
    assert_eq!(toggle(ToggleType::Radio, ToggleState::On), 2);
    assert_eq!(toggle(ToggleType::Radio, ToggleState::Indeterminate), 0);
    assert_eq!(toggle(ToggleType::CannotBeToggled, ToggleState::On), 0);
    assert_eq!(toggle(ToggleType::CannotBeToggled, ToggleState::Off), 0);
}

#[test]
fn menu_line_is_json_or_an_empty_list() {
    assert_eq!(menu_line(Some("[{}]".to_string())), "[{}]\n");
    assert_eq!(menu_line(None), "[]\n");
}

#[test]
fn connection_carries_one_command() {
    let mut st = State::new();
    st.seed(":1", item("a"), Some(menu()));
    let alone = text(answer(&st, "menu-flat 1 1\n"));
    assert_eq!(text(answer(&st, "menu-flat 1 1\nlist\n")), alone);
    assert_eq!(text(st.handle_client(b"menu-flat 1 1\n\xff\xfe\n").unwrap()), alone);
    assert!(matches!(answer(&st, "\nlist\n"), Reply::Nothing));
    assert_eq!(read_request(b"menu 4\n5"), Ok(Request::Menu(4)));
    assert_eq!(read_request(b"menu\r\n5"), Ok(Request::Menu(0)));
    assert_eq!(read_request(b""), Ok(Request::Unknown));
}

#[test]
fn line_that_is_no_text_is_refused() {
    let st = State::new();
    assert_eq!(st.handle_client(b"list \xff\n").unwrap_err(), LineError::NotUtf8);
    assert_eq!(st.handle_client(b"list \xc3\n\xa9").unwrap_err(), LineError::NotUtf8);
    assert_eq!(read_request(b"menu 3 \xc3\xa9\n"), Ok(Request::Menu(3)));
    assert_eq!(LineError::NotUtf8.message(), "stream did not contain valid UTF-8");
}
