use varde::launcher::list::moved_selection;
use varde::launcher::source::{app_items, AppEntry, DesktopEntry, Dmenu, LoadedVisual};

fn lines() -> Dmenu {
    Dmenu {
        lines: vec!["alpha".into(), "beta".into(), "gamma".into()],
    }
}

#[test]
fn dmenu_items_are_the_lines_by_index() {
    let items = lines().items();
    assert_eq!(items.len(), 3);
    for (index, item) in items.iter().enumerate() {
        assert_eq!(item.id, index.to_string());
        assert_eq!(item.visual, LoadedVisual::Blank);
        assert!(item.search_terms.is_empty());
    }
    assert_eq!(items[1].title, "beta");
}

#[test]
fn dmenu_activation_returns_the_chosen_line() {
    let menu = lines();
    assert_eq!(menu.activate("2"), Ok("gamma".to_string()));
    assert_eq!(
        menu.activate("3"),
        Err("Selector item is no longer available".to_string())
    );
    assert_eq!(menu.activate("two"), Err("Invalid selector item".to_string()));
    assert_eq!(menu.activate(""), Err("Invalid selector item".to_string()));
}

fn app(id: Option<&str>, should_show: bool, desktop: Option<DesktopEntry>) -> AppEntry {
    AppEntry {
        id: id.map(str::to_string),
        display_name: format!("{} App", id.unwrap_or("Nameless")),
        name: "name".into(),
        executable: "/usr/bin/app".into(),
        should_show,
        desktop,
    }
}

fn desktop(hidden: bool, no_display: bool) -> DesktopEntry {
    DesktopEntry {
        hidden,
        no_display,
        generic_name: Some("Web Browser".into()),
        keywords: vec!["internet".into(), "web".into()],
    }
}

#[test]
fn lists_shown_applications_with_their_search_terms() {
    let entries = vec![
        app(Some("firefox.desktop"), true, Some(desktop(false, false))),
        app(Some("hidden.desktop"), true, Some(desktop(true, false))),
        app(Some("nodisplay.desktop"), true, Some(desktop(false, true))),
        app(None, true, None),
        app(Some("hiddenapp"), false, None),
        app(Some("plain"), true, None),
    ];
    let items = app_items(&entries);
    assert_eq!(items.len(), 2);
    assert_eq!(items[0].0, 0);
    assert_eq!(items[0].1.id, "firefox.desktop");
    assert_eq!(items[0].1.title, "firefox.desktop App");
    assert_eq!(
        items[0].1.search_terms,
        vec![
            "name",
            "/usr/bin/app",
            "firefox.desktop",
            "Web Browser",
            "internet",
            "web"
        ]
    );
    assert_eq!(items[1].0, 5);
    assert_eq!(
        items[1].1.search_terms,
        vec!["name", "/usr/bin/app", "plain"]
    );
}

#[test]
fn moving_the_selection_wraps_around() {
    assert_eq!(moved_selection(None, 1, 0), None);
    assert_eq!(moved_selection(None, 1, 5), Some(0));
    assert_eq!(moved_selection(None, -1, 5), Some(4));
    assert_eq!(moved_selection(Some(4), 1, 5), Some(0));
    assert_eq!(moved_selection(Some(0), -1, 5), Some(4));
    assert_eq!(moved_selection(Some(2), 1, 5), Some(3));
    assert_eq!(moved_selection(Some(2), -7, 5), Some(0));
    assert_eq!(moved_selection(Some(2), 12, 5), Some(4));
}
