use null_installer::catalog::{ProgramEntry, SoftwareCatalog};
use null_installer::coordinator::{count_message, no_selection_text, stamp, view_status_text, ActionKind, ActionOutcome, Coordinator};
use null_installer::filter::ViewSelector;
use null_installer::selection::SelectionTracker;

fn entry(name: &str, category: Option<&str>) -> ProgramEntry {
    let mut e = ProgramEntry::named(name);
    e.category = category.map(|c| c.to_string());
    e
}

fn loaded() -> Coordinator {
    let mut c = Coordinator::new();
    c.load_catalog(SoftwareCatalog {
        software: vec![
            entry("Tor Browser", Some("Privacy & Security")),
            entry("VSCode", Some("Development IDEs")),
            entry("Paint", None),
        ],
    });
    c
}

#[test]
fn new_coordinator_is_idle() {
    let c = Coordinator::new();
    assert!(!c.is_ready());
    assert!(!c.is_busy());
    assert_eq!(c.status(), "Ready");
    assert!(c.log().is_empty());
    assert!(c.groups().is_empty());
}

#[test]
fn load_shows_everything() {
    let c = loaded();
    assert!(c.is_ready());
    assert_eq!(c.visible(), &vec![0, 1, 2]);
    assert_eq!(c.status(), "Showing 3 programs");
    assert_eq!(c.log(), &vec!["Loaded 3 programs from catalog".to_string()]);
    assert_eq!(c.groups().len(), 3);
    let labels = c.tree_labels();
    assert_eq!(labels[0], "\u{1F4BB} Development IDEs (1)");
    assert_eq!(labels[1], "\u{1F512} Privacy & Security (1)");
    assert_eq!(labels[2], "\u{1F4C1} Other (1)");
    assert_eq!(c.rows().len(), 3);
    assert_eq!(c.rows()[2].name, "Paint");
}

#[test]
fn check_survives_view_switches() {
    let mut c = loaded();
    c.set_checked("VSCode", true);
    assert!(c.is_checked("VSCode"));
    c.navigate(ViewSelector::Stealth);
    assert!(c.is_checked("VSCode"));
    assert_eq!(c.visible(), &vec![0]);
    c.navigate(ViewSelector::Category("Other".to_string()));
    assert!(c.is_checked("VSCode"));
    assert_eq!(c.status(), "Showing 1 programs in Other");
    c.navigate(ViewSelector::All);
    assert!(c.is_checked("VSCode"));
    assert_eq!(c.count_checked_visible(), 1);
}

#[test]
fn action_without_selection_is_refused() {
    let mut c = loaded();
    let log_len = c.log().len();
    assert_eq!(c.request_action(ActionKind::Install), ActionOutcome::NoSelection);
    assert!(!c.is_busy());
    assert_eq!(c.log().len(), log_len);
    c.set_checked("Paint", true);
    c.navigate(ViewSelector::Stealth);
    assert_eq!(c.count_checked_visible(), 0);
    assert_eq!(c.request_action(ActionKind::Download), ActionOutcome::NoSelection);
    assert!(!c.is_busy());
    assert_eq!(no_selection_text(ActionKind::Install), "Please select programs to install");
    assert_eq!(no_selection_text(ActionKind::Download), "Please select programs to download");
}

#[test]
fn action_with_selection_turns_busy_until_stop() {
    let mut c = loaded();
    c.set_checked("Paint", true);
    c.set_checked("VSCode", true);
    assert_eq!(c.status(), "Selected 2 items");
    assert_eq!(c.request_action(ActionKind::Install), ActionOutcome::Started(2));
    assert!(c.is_busy());
    assert_eq!(c.log().last().unwrap(), "Starting installation of 2 programs...");
    c.request_stop();
    assert!(!c.is_busy());
    assert_eq!(c.log().last().unwrap(), "Operation cancelled by user");
    c.request_stop();
    assert!(!c.is_busy());
    assert_eq!(c.request_action(ActionKind::Download), ActionOutcome::Started(2));
    assert_eq!(c.log().last().unwrap(), "Starting download of 2 programs...");
}

#[test]
fn unknown_toggle_is_ignored() {
    let mut c = loaded();
    let status = c.status().to_string();
    c.toggle_row("Nope");
    assert!(!c.is_checked("Nope"));
    assert_eq!(c.status(), status);
    c.toggle_row("Paint");
    assert!(c.is_checked("Paint"));
    assert_eq!(c.status(), "Selected 1 items");
    c.toggle_row("Paint");
    assert!(!c.is_checked("Paint"));
    assert_eq!(c.status(), "Selected 0 items");
}

#[test]
fn bulk_select_covers_visible_rows_only() {
    let mut c = loaded();
    c.activate_stealth();
    assert_eq!(c.log().last().unwrap(), "Stealth mode activated - privacy tools selected");
    assert_eq!(c.bulk_select(true), 1);
    assert_eq!(c.status(), "Selected 1 items");
    assert_eq!(c.log().last().unwrap(), "All items selected");
    assert!(c.is_checked("Tor Browser"));
    assert!(!c.is_checked("VSCode"));
    c.navigate(ViewSelector::All);
    assert_eq!(c.count_checked_visible(), 1);
    assert_eq!(c.bulk_select(false), 3);
    assert_eq!(c.status(), "Deselected 3 items");
    assert_eq!(c.log().last().unwrap(), "All items deselected");
    assert_eq!(c.count_checked_visible(), 0);
}

#[test]
fn notes_are_appended() {
    let mut c = Coordinator::new();
    c.note("first");
    c.note("second");
    assert_eq!(c.log(), &vec!["first".to_string(), "second".to_string()]);
}

#[test]
fn message_texts() {
    assert_eq!(count_message("Showing ", 12, " programs"), "Showing 12 programs");
    assert_eq!(view_status_text(&ViewSelector::Stealth, 0), "Showing 0 stealth/privacy programs");
    assert_eq!(view_status_text(&ViewSelector::Category("Media".to_string()), 2), "Showing 2 programs in Media");
    assert_eq!(stamp("12:00:00", "Ready"), "[12:00:00] Ready");
}

#[test]
fn selection_tracker_basics() {
    let mut s = SelectionTracker::new();
    assert!(!s.is_checked("a"));
    s.set_checked("a", true);
    s.set_checked("a", true);
    assert!(s.is_checked("a"));
    let ids = vec!["a".to_string(), "b".to_string(), "a".to_string()];
    assert_eq!(s.count_checked(&ids), 2);
    assert_eq!(s.select_all(&ids, true), 3);
    assert_eq!(s.count_checked(&ids), 3);
    s.set_checked("a", false);
    assert!(!s.is_checked("a"));
    assert!(s.is_checked("b"));
    assert_eq!(s.select_all(&ids, false), 3);
    assert_eq!(s.count_checked(&ids), 0);
}
