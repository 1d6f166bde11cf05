# wlr-trayd

A system tray host for bars that have none of their own. It keeps track of the StatusNotifierItem
trays of a session, saves their icons, caches their menus, and answers over a unix socket. A small
command line client and a GTK4 popup for the menus come with it.

`src/` is the library: the rules, verified with Verus. It does no I/O. The bus, the socket, the
file system and the toolkit are told what to do by values that the library returns, and their
answers come back as values.

| Module | What it holds |
|---|---|
| `registry`, `events` | the trays that are known, their ids, and what happens to them |
| `icon`, `icon_search`, `pixmap` | which picture becomes a tray's icon |
| `menu` | menu trees |
| `listing`, `protocol` | what clients ask, and what they are answered |
| `popup`, `placement`, `client` | the two clients |
| `wire` | what the daemon and its clients can rely on |
| `paths`, `number`, `text` | paths, decimal numbers, words, fields and lines |

`app/` is the program around it: one binary that is the daemon, the client or the popup, by the
name it is called by (`wlr-trayd`, `wlr-tray`, `wlr-tray-menu`).

## Settings of the popup

- `WLR_TRAY_MENU_RIGHT_MARGIN`: px from the right edge of the screen
- `WLR_TRAY_MENU_TOP_MARGIN`: px from the top of the screen to the menu's top edge
- `WLR_TRAY_MENU_TOP_FROM_BOTTOM`: px from the bottom of the screen to the menu's top edge
- `WLR_TRAY_MENU_BOTTOM_MARGIN`: px from the bottom of the screen to the menu's bottom edge
