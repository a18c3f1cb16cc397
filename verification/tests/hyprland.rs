use hyprrun::hyprland::{
    floating_request, focus_succeeded, fullscreen_request, get_client_addresses, new_addresses,
    no_active_window, pinned_request, Client, Dispatch, Workspace,
};

fn client(address: &str) -> Client {
    Client {
        class: "App".to_owned(),
        address: address.to_owned(),
        initial_class: None,
        title: None,
        initial_title: None,
        tag: None,
        xdg_tag: None,
        workspace: Workspace {
            id: 1,
            name: "1".to_owned(),
        },
        floating: false,
        monitor: 0,
        pinned: false,
        fullscreen: false,
        fullscreen_mode: 0,
        at: [0, 0],
        size: [10, 10],
    }
}

fn strs(v: &[&str]) -> Vec<String> {
    v.iter().map(|s| s.to_string()).collect()
}

#[test]
fn client_addresses_are_a_set() {
    let cs = vec![client("0x1"), client("0x2"), client("0x1"), client("0x3")];
    assert_eq!(get_client_addresses(&cs), strs(&["0x1", "0x2", "0x3"]));
    assert_eq!(get_client_addresses(&vec![]), Vec::<String>::new());
}

#[test]
fn new_windows_are_the_difference() {
    let before = strs(&["0x1", "0x2"]);
    let after = strs(&["0x2", "0x3", "0x1", "0x4"]);
    assert_eq!(new_addresses(&before, &after), strs(&["0x3", "0x4"]));
    assert!(new_addresses(&after, &before).is_empty());
}

#[test]
fn dispatch_arguments() {
    assert_eq!(
        Dispatch::Exec("alacritty -e vim".to_string()).args(),
        strs(&["dispatch", "exec", "alacritty -e vim"])
    );
    assert_eq!(
        Dispatch::FocusWindow("0xabc".to_string()).args(),
        strs(&["dispatch", "focuswindow", "address:0xabc"])
    );
    assert_eq!(
        Dispatch::MoveToWorkspaceSilent {
            address: "0xabc".to_string(),
            workspace_id: -98
        }
        .args(),
        strs(&["dispatch", "movetoworkspacesilent", "-98,address:0xabc"])
    );
    assert_eq!(
        Dispatch::ToggleFloating("0x1".to_string()).args(),
        strs(&["dispatch", "togglefloating", "address:0x1"])
    );
    assert_eq!(
        Dispatch::Fullscreen(2).args(),
        strs(&["dispatch", "fullscreen", "2"])
    );
    assert_eq!(
        Dispatch::MoveWindowPixel {
            address: "0x1".to_string(),
            x: 10,
            y: -20
        }
        .args(),
        strs(&["dispatch", "movewindowpixel", "exact 10 -20,address:0x1"])
    );
    assert_eq!(
        Dispatch::ResizeWindowPixel {
            address: "0x1".to_string(),
            w: 800,
            h: 600
        }
        .args(),
        strs(&["dispatch", "resizewindowpixel", "exact 800 600,address:0x1"])
    );
    assert_eq!(
        Dispatch::Pin("0x1".to_string()).args(),
        strs(&["dispatch", "pin", "address:0x1"])
    );
}

#[test]
fn conditional_requests() {
    assert!(floating_request("0x1", false).is_none());
    assert!(matches!(floating_request("0x1", true), Some(Dispatch::ToggleFloating(a)) if a == "0x1"));
    assert!(fullscreen_request(0).is_none());
    assert!(fullscreen_request(-1).is_none());
    assert!(matches!(fullscreen_request(1), Some(Dispatch::Fullscreen(1))));
    assert!(pinned_request("0x1", false).is_none());
    assert!(matches!(pinned_request("0x1", true), Some(Dispatch::Pin(a)) if a == "0x1"));
}

#[test]
fn focus_reply() {
    assert!(focus_succeeded("ok\n", true));
    assert!(!focus_succeeded("ok\n", false));
    assert!(!focus_succeeded("No such window found\n", true));
}

#[test]
fn active_window_reply() {
    assert!(no_active_window("{}"));
    assert!(no_active_window("  {}\n"));
    assert!(no_active_window("\n"));
    assert!(no_active_window(""));
    assert!(!no_active_window("{\"class\": \"kitty\"}"));
}
