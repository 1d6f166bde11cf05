use wlr_trayd::icon_search::{size_of_icon, DirEntry, IconSearch, SearchAction, SearchEvent};
use wlr_trayd::paths::{client_socket_path, icon_dir, icon_file, join, socket_path};
use wlr_trayd::pixmap::{biggest, pixmap_to_rgba, IconPixmap, PixmapError};

fn session(dir: &str) -> Option<String> {
    Some(dir.to_string())
}

fn file(path: &str) -> DirEntry {
    DirEntry { path: path.as_bytes().to_vec(), is_dir: false }
}

fn dir(path: &str) -> DirEntry {
    DirEntry { path: path.as_bytes().to_vec(), is_dir: true }
}

fn pixmap(width: i32, height: i32, pixels: Vec<u8>) -> IconPixmap {
    IconPixmap { width, height, pixels }
}

#[test]
fn icons_are_kept_in_the_runtime_directory() {
    assert_eq!(icon_dir(&session("/run/user/1000")), b"/run/user/1000/ewwii_tray".to_vec());
    assert_eq!(icon_file(&session("/run/user/1000"), 7), b"/run/user/1000/ewwii_tray/7.png".to_vec());
    assert_eq!(icon_file(&None, 12), b"/tmp/ewwii_tray/12.png".to_vec());
    assert_eq!(icon_file(&session("/run/"), 3), b"/run/ewwii_tray/3.png".to_vec());
    assert_eq!(icon_file(&session(""), 3), b"ewwii_tray/3.png".to_vec());
}

#[test]
fn icon_files_of_two_trays_differ() {
    assert_ne!(icon_file(&None, 1), icon_file(&None, 11));
}

#[test]
fn paths_are_joined_as_the_standard_library_joins_them() {
    for base in ["", "/", "/a", "/a/", "a", "a/b//"] {
        for path in ["b", "b/c", "", "/abs"] {
            let expected = std::path::Path::new(base).join(path);
            assert_eq!(
                join(base.as_bytes(), path.as_bytes()),
                expected.to_str().unwrap().as_bytes().to_vec(),
                "{:?} {:?}", base, path
            );
        }
    }
}

#[test]
fn daemon_listens_where_clients_connect() {
    for runtime in [None, session("/run/user/1000"), session("r"), session(""), session("/\u{e9}")] {
        assert_eq!(socket_path(&runtime), client_socket_path(&runtime).into_bytes());
    }
    for runtime in [session("/run/"), session("/run//"), session("/"), session("r/")] {
        let listening = String::from_utf8(socket_path(&runtime)).unwrap();
        let connecting = client_socket_path(&runtime);
        assert_eq!(std::path::Path::new(&listening), std::path::Path::new(&connecting));
    }
    assert_eq!(socket_path(&None), b"/tmp/wlr-trayd.sock".to_vec());
    assert_eq!(socket_path(&session("/run/")), b"/run/wlr-trayd.sock".to_vec());
    assert_eq!(client_socket_path(&None), "/tmp/wlr-trayd.sock");
    assert_eq!(client_socket_path(&session("/run/user/1000")), "/run/user/1000/wlr-trayd.sock");
    assert_eq!(client_socket_path(&session("/run/")), "/run//wlr-trayd.sock");
    assert_eq!(client_socket_path(&session("/")), "//wlr-trayd.sock");
    assert_eq!(client_socket_path(&session("")), "wlr-trayd.sock");
}

#[test]
fn alpha_moves_behind_the_colours() {
    let p = pixmap(2, 1, vec![1, 2, 3, 4, 5, 6, 7, 8, 9]);
    let icon = pixmap_to_rgba(&p).unwrap();
    assert_eq!((icon.width, icon.height), (2, 1));
    assert_eq!(icon.rgba, vec![2, 3, 4, 1, 6, 7, 8, 5]);
}

#[test]
fn empty_picture_is_a_picture() {
    let icon = pixmap_to_rgba(&pixmap(0, 5, vec![9, 9])).unwrap();
    assert_eq!((icon.width, icon.height, icon.rgba.len()), (0, 5, 0));
}

#[test]
fn bad_pixmaps_are_refused() {
    assert_eq!(pixmap_to_rgba(&pixmap(-1, 2, vec![])).unwrap_err(), PixmapError::BadWidth);
    assert_eq!(pixmap_to_rgba(&pixmap(-1, -2, vec![])).unwrap_err(), PixmapError::BadWidth);
    assert_eq!(pixmap_to_rgba(&pixmap(1, -2, vec![])).unwrap_err(), PixmapError::BadHeight);
    let short = pixmap_to_rgba(&pixmap(2, 3, vec![0; 23])).unwrap_err();
    assert_eq!(short, PixmapError::TooShort { have: 23, expected: 24 });
    assert_eq!(short.message(), "icon pixmap too short: 23 < 24");
    assert_eq!(PixmapError::BadWidth.message(), "bad icon width");
    assert_eq!(PixmapError::BadHeight.message(), "bad icon height");
    assert_eq!(PixmapError::DimsMismatch.message(), "pixmap dims didn't match buffer");
    let huge = pixmap_to_rgba(&pixmap(i32::MAX, i32::MAX, vec![0; 4])).unwrap_err();
    assert_eq!(huge, PixmapError::TooShort { have: 4, expected: 18446744056529682436 });
}

#[test]
fn last_of_the_biggest_pixmaps_is_taken() {
    let all = vec![pixmap(1, 1, vec![]), pixmap(4, 4, vec![]), pixmap(2, 8, vec![]), pixmap(3, 3, vec![])];
    assert_eq!(biggest(&all), 2);
    assert_eq!(biggest(&vec![pixmap(-4, -4, vec![]), pixmap(3, 3, vec![])]), 0);
    assert_eq!(biggest(&vec![pixmap(65536, 65536, vec![]), pixmap(1, 1, vec![])]), 0);
    assert_eq!(biggest(&vec![pixmap(1, 1, vec![]), pixmap(i32::MIN, 2, vec![])]), 0);
}

#[test]
fn size_is_read_off_the_path() {
    let size = |p: &[u8]| size_of_icon(&p.to_vec());
    assert_eq!(size(b"/usr/share/icons/hicolor/48x48/apps/a.png"), 48);
    assert_eq!(size(b"/i/64x32/apps/a.png"), 32);
    assert_eq!(size(b"/i/48x48@2/apps/a.png"), 0);
    assert_eq!(size(b"/i/48x48x9/16x16/a.png"), 48);
    assert_eq!(size(b"/i/x48/48x/16x16/a.png"), 16);
    assert_eq!(size(b"/i/scalable/a.svg"), 0);
    assert_eq!(size(b"7x9"), 7);
    assert_eq!(size(b""), 0);
    assert_eq!(size(b"/i/48x48x\xff/a.png"), 0);
    assert_eq!(size(b"/\xff/24x24/a.png"), 24);
}

#[test]
fn largest_icon_of_all_bases_is_found() {
    let mut search = IconSearch::resolve_icon_name(
        &"mail".to_string(),
        &Some("/theme".to_string()),
        &Some(b"/home/u".to_vec()),
    );
    let mut asked: Vec<String> = Vec::new();
    let mut event = SearchEvent::Start;
    let found = loop {
        let action = search.step(event);
        asked.push(match &action {
            SearchAction::TestBase(p) => format!("test {}", String::from_utf8_lossy(p)),
            SearchAction::ReadDir(p) => format!("read {}", String::from_utf8_lossy(p)),
            SearchAction::Done(_) => "done".to_string(),
        });
        event = match action {
            SearchAction::TestBase(p) => SearchEvent::BaseTested(p != b"/theme".to_vec()),
            SearchAction::ReadDir(p) => match p.as_slice() {
                b"/home/u/.local/share/icons" => SearchEvent::Listed(Some(vec![
                    dir("/home/u/.local/share/icons/16x16"),
                    dir("/home/u/.local/share/icons/32x32"),
                    file("/home/u/.local/share/icons/mail.png"),
                ])),
                b"/home/u/.local/share/icons/32x32" => SearchEvent::Listed(Some(vec![
                    file("/home/u/.local/share/icons/32x32/mail.svg"),
                    file("/home/u/.local/share/icons/32x32/mail.png"),
                    file("/home/u/.local/share/icons/32x32/mail.png.bak"),
                ])),
                b"/home/u/.local/share/icons/16x16" => SearchEvent::Listed(None),
                b"/usr/share/icons" => SearchEvent::Listed(Some(vec![
                    file("/usr/share/icons/64x64/other.png"),
                    file("/usr/share/icons/24x24/mail.png"),
                ])),
                _ => SearchEvent::Listed(Some(vec![])),
            },
            SearchAction::Done(found) => break found,
        };
    };
    assert_eq!(found, Some(b"/home/u/.local/share/icons/32x32/mail.svg".to_vec()));
    assert_eq!(asked, vec![
        "test /theme",
        "test /home/u/.local/share/icons",
        "read /home/u/.local/share/icons",
        "read /home/u/.local/share/icons/32x32",
        "read /home/u/.local/share/icons/16x16",
        "test /usr/share/icons",
        "read /usr/share/icons",
        "test /usr/share/pixmaps",
        "read /usr/share/pixmaps",
        "done",
    ]);
}

#[test]
fn search_without_a_home_or_a_match_finds_nothing() {
    let mut search = IconSearch::resolve_icon_name(&"none".to_string(), &None, &None);
    assert!(matches!(search.step(SearchEvent::Start), SearchAction::TestBase(p) if p == b"/usr/share/icons".to_vec()));
    assert!(matches!(
        search.step(SearchEvent::BaseTested(false)),
        SearchAction::TestBase(p) if p == b"/usr/share/pixmaps".to_vec()
    ));
    assert!(matches!(search.step(SearchEvent::BaseTested(false)), SearchAction::Done(None)));
}

#[test]
fn bases_that_do_not_start_at_the_root_are_left_out() {
    for (theme, home) in [("t", "h"), ("", ""), ("../t", "./h")] {
        let mut search = IconSearch::resolve_icon_name(
            &"foo".to_string(),
            &Some(theme.to_string()),
            &Some(home.as_bytes().to_vec()),
        );
        match search.step(SearchEvent::Start) {
            SearchAction::TestBase(p) => assert_eq!(p, b"/usr/share/icons".to_vec()),
            other => panic!("{:?}", other),
        }
    }
    let mut search = IconSearch::resolve_icon_name(&"foo".to_string(), &None, &Some(b"/".to_vec()));
    match search.step(SearchEvent::Start) {
        SearchAction::TestBase(p) => assert_eq!(p, b"/.local/share/icons".to_vec()),
        other => panic!("{:?}", other),
    }
}

#[test]
fn found_icon_is_absolute() {
    let mut search = IconSearch::resolve_icon_name(&"foo".to_string(), &Some("/t/".to_string()), &None);
    search.step(SearchEvent::Start);
    assert!(matches!(search.step(SearchEvent::BaseTested(true)), SearchAction::ReadDir(p) if p == b"/t/".to_vec()));
    search.step(SearchEvent::Listed(Some(vec![file("/t/foo.png")])));
    search.step(SearchEvent::BaseTested(false));
    match search.step(SearchEvent::BaseTested(false)) {
        SearchAction::Done(found) => assert_eq!(found, Some(b"/t/foo.png".to_vec())),
        other => panic!("{:?}", other),
    }
}
