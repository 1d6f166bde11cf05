use wlr_trayd::client::command_line;
use wlr_trayd::menu::{MenuItem, MenuType, ToggleState, ToggleType, TrayMenu};
use wlr_trayd::placement::{
    tray_icon_bottom_margin, tray_icon_right_margin, vertical_place, visible_tray_slots,
    window_size, Vertical,
};
use wlr_trayd::popup::{
    click_command, env_i32, fetch_command, fetch_items, menu_rows, message, parse_args, Click,
    Item, MenuRow,
};
use wlr_trayd::protocol::{parse_request, read_request, ActivateRequest, Reply, Request};
use wlr_trayd::registry::{State, StatusNotifierItem};

fn args(words: &[&str]) -> Vec<String> {
    words.iter().map(|w| w.to_string()).collect()
}

fn some(s: &str) -> Option<String> {
    Some(s.to_string())
}

fn fields(it: &Item) -> (i32, &str, bool, bool, bool) {
    (it.id, it.label.as_str(), it.enabled, it.has_submenu, it.separator)
}

#[test]
fn client_sends_its_arguments_as_one_line() {
    assert_eq!(command_line(&args(&[])), None);
    assert_eq!(command_line(&args(&["list"])), some("list\n"));
    assert_eq!(command_line(&args(&["menu-click", "3", "-4"])), some("menu-click 3 -4\n"));
    assert_eq!(parse_request(&command_line(&args(&["menu-flat 3", "4"])).unwrap()), Request::MenuFlat { id: 3, parent: 4 });
}

#[test]
fn daemon_reads_what_the_popup_sends() {
    for id in [1u32, 42, u32::MAX] {
        for entry in [0i32, 5, -5, i32::MIN, i32::MAX] {
            assert_eq!(read_request(message(&fetch_command(id, entry)).as_bytes()), Ok(Request::MenuFlat { id, parent: entry }));
            assert_eq!(read_request(message(&click_command(id, entry)).as_bytes()), Ok(Request::MenuClick { id, submenu: entry }));
        }
    }
    assert_eq!(fetch_command(3, 0), "menu-flat 3");
    assert_eq!(fetch_command(3, -1), "menu-flat 3 -1");
    assert_eq!(click_command(3, 0), "menu-click 3 0");
    assert_eq!(message(&"list".to_string()), "list\n");
}

#[test]
fn rows_are_read() {
    let items = fetch_items(&some("1\tOpen\t1\t0\t0\nshort\trow\n7\t\t0\t1\t1\textra\nx\tid\tyes\t11\t\n"));
    assert_eq!(items.len(), 3);
    assert_eq!(fields(&items[0]), (1, "Open", true, false, false));
    assert_eq!(fields(&items[1]), (7, "", false, true, true));
    assert_eq!(fields(&items[2]), (0, "id", false, false, false));
    assert!(fetch_items(&None).is_empty());
    assert!(fetch_items(&some("")).is_empty());
}

#[test]
fn popup_reads_back_the_menu_of_the_daemon() {
    let entry = |id: i32, label: Option<&str>, separator: bool, visible: bool, submenu: Vec<MenuItem>| MenuItem {
        id,
        menu_type: if separator { MenuType::Separator } else { MenuType::Standard },
        label: label.map(str::to_string),
        enabled: id != 3,
        visible,
        toggle_type: ToggleType::Radio,
        toggle_state: ToggleState::On,
        submenu,
    };
    let menu = TrayMenu {
        id: 1,
        submenus: vec![
            entry(1, Some("Open \r\u{e9}"), false, true, vec![entry(2, Some("Below"), false, true, vec![])]),
            entry(9, Some("Hidden"), false, false, vec![]),
            entry(3, None, true, true, vec![]),
        ],
    };
    let item = StatusNotifierItem { title: None, icon_name: None, icon_pixmap: None, icon_theme_path: None, menu: None };
    let mut st = State::new();
    let id = st.seed(":1", item, Some(menu));
    let fetch = |parent: i32| match st.handle_client(message(&fetch_command(id, parent)).as_bytes()).unwrap() {
        Reply::Text(t) => fetch_items(&Some(t)),
        other => panic!("{:?}", other),
    };
    let top = fetch(0);
    assert_eq!(top.len(), 2);
    assert_eq!(fields(&top[0]), (1, "Open \r\u{e9}", true, true, false));
    assert_eq!(fields(&top[1]), (3, "", false, false, true));
    let below = fetch(1);
    assert_eq!(below.len(), 1);
    assert_eq!(fields(&below[0]), (2, "Below", true, false, false));
}

#[test]
fn click_reaches_the_tray() {
    let mut st = State::new();
    let id = st.upsert(
        ":1.7",
        StatusNotifierItem { title: None, icon_name: None, icon_pixmap: None, icon_theme_path: None, menu: some("/M") },
    );
    match st.handle_client(message(&click_command(id, -3)).as_bytes()).unwrap() {
        Reply::Activate(ActivateRequest::MenuItem { address, menu_path, submenu_id }) => {
            assert_eq!((address.as_str(), menu_path.as_str(), submenu_id), (":1.7", "/M", -3));
        }
        other => panic!("{:?}", other),
    }
}

#[test]
fn rows_of_the_popup_do_what_they_show() {
    let item = |id, has_submenu, separator| Item { id, label: "l".to_string(), enabled: id > 1, has_submenu, separator };
    let rows = menu_rows(4, &vec![item(1, false, false), item(2, true, false), item(3, true, true)]);
    assert_eq!(rows.len(), 3);
    match &rows[0] {
        MenuRow::Button { label, sensitive, arrow, click: Click::Send(cmd) } => {
            assert_eq!((label.as_str(), *sensitive, *arrow, cmd.as_str()), ("l", false, false, "menu-click 4 1"));
        }
        other => panic!("{:?}", other),
    }
    match &rows[1] {
        MenuRow::Button { sensitive, arrow, click: Click::OpenSubmenu(id), .. } => {
            assert_eq!((*sensitive, *arrow, *id), (true, true, 2));
        }
        other => panic!("{:?}", other),
    }
    assert!(matches!(rows[2], MenuRow::Separator));
}

#[test]
fn settings_are_numbers() {
    assert_eq!(env_i32(&None), None);
    assert_eq!(env_i32(&some("160")), Some(160));
    assert_eq!(env_i32(&some("-3")), Some(-3));
    assert_eq!(env_i32(&some("160px")), None);
}

#[test]
fn command_line_of_the_popup_is_read() {
    assert_eq!(parse_args(&args(&["wlr-tray-menu"])), None);
    assert_eq!(parse_args(&args(&["wlr-tray-menu", "0"])), None);
    assert_eq!(parse_args(&args(&["wlr-tray-menu", "x", "2"])), None);
    assert_eq!(parse_args(&args(&["wlr-tray-menu", "5"])), Some((5, 1)));
    assert_eq!(parse_args(&args(&["wlr-tray-menu", "5", "3"])), Some((5, 3)));
    assert_eq!(parse_args(&args(&["wlr-tray-menu", "5", "x"])), Some((5, 1)));
    assert_eq!(parse_args(&args(&["wlr-tray-menu", "5", "0"])), Some((5, 0)));
}

#[test]
fn slots_are_counted() {
    assert_eq!(visible_tray_slots(&None, 0), 1);
    assert_eq!(visible_tray_slots(&None, 3), 3);
    assert_eq!(visible_tray_slots(&some("a\n\n  \nb\n\tc"), 1), 3);
    assert_eq!(visible_tray_slots(&some("a\nb\nc\nd\ne\nf\ng\nh\ni\nj\n"), 1), 8);
    assert_eq!(visible_tray_slots(&None, 99), 8);
    assert_eq!(visible_tray_slots(&None, u32::MAX), 1);
    assert_eq!(visible_tray_slots(&None, 2147483648), 1);
}

#[test]
fn right_margin_follows_the_slot() {
    assert_eq!(tray_icon_right_margin(Some(160), &None, 1), 160);
    assert_eq!(tray_icon_right_margin(Some(-1), &None, 1), -1);
    assert_eq!(tray_icon_right_margin(None, &None, 1), 83);
    let three = some("a\nb\nc\n");
    assert_eq!(tray_icon_right_margin(None, &three, 1), 113);
    assert_eq!(tray_icon_right_margin(None, &three, 2), 83);
    assert_eq!(tray_icon_right_margin(None, &three, 3), 53);
    assert_eq!(tray_icon_right_margin(None, &None, 8), 20);
    assert_eq!(tray_icon_right_margin(None, &some("1\n2\n3\n4\n5\n6\n7\n8\n"), 1), 146);
    assert_eq!(tray_icon_right_margin(None, &None, u32::MAX), 83);
    for list in [None, some("a\nb\nc\n"), some("1\n2\n3\n4\n5\n6\n7\n8\n9\n")] {
        for slot in 0..12 {
            assert!(tray_icon_right_margin(None, &list, slot + 1) <= tray_icon_right_margin(None, &list, slot));
        }
    }
}

#[test]
fn vertical_place_follows_the_settings() {
    assert_eq!(tray_icon_bottom_margin(None), 78);
    assert_eq!(tray_icon_bottom_margin(Some(5)), 5);
    assert_eq!(tray_icon_bottom_margin(Some(-5)), 0);
    assert_eq!(vertical_place(Some(9), Some(520), Some(5), 1440), Vertical::Top(9));
    assert_eq!(vertical_place(Some(-9), None, None, 1440), Vertical::Top(0));
    assert_eq!(vertical_place(None, Some(520), Some(5), 1440), Vertical::Top(920));
    assert_eq!(vertical_place(None, Some(2000), None, 1440), Vertical::Top(0));
    assert_eq!(vertical_place(None, Some(i32::MIN), None, 1440), Vertical::Top(i32::MAX));
    assert_eq!(vertical_place(None, None, Some(5), 1440), Vertical::Bottom(5));
    assert_eq!(vertical_place(None, None, None, 1440), Vertical::Bottom(78));
}

#[test]
fn window_has_the_size_of_the_screen() {
    assert_eq!(window_size(Some((1920, 1080))), (1920, 1080));
    assert_eq!(window_size(None), (2304, 1440));
}

#[test]
fn list_has_one_line_per_tray() {
    let mut st = State::new();
    for (address, title) in [(":1", "b"), (":2", "a"), (":3", "")] {
        st.upsert(
            address,
            StatusNotifierItem { title: some(title), icon_name: None, icon_pixmap: None, icon_theme_path: None, menu: None },
        );
    }
    assert_eq!(visible_tray_slots(&Some(st.list()), 1), 3);
}
