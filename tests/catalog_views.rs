use null_installer::catalog::{ProgramEntry, SoftwareCatalog};
use null_installer::category::{build_category_index, category_label, is_priority_category, priority_category};
use null_installer::catalog::{category_icon, field_or};
use null_installer::filter::{filter_programs, stealth_candidate, ViewSelector};
use null_installer::navigation::{category_in_label, selector_for_label, tree_labels};
use null_installer::text::{contains_text, decimal, same_text, text_less};

fn entry(name: &str, category: Option<&str>) -> ProgramEntry {
    let mut e = ProgramEntry::named(name);
    e.category = category.map(|c| c.to_string());
    e
}

fn example_catalog() -> Vec<ProgramEntry> {
    vec![
        entry("Tor Browser", Some("Privacy & Security")),
        entry("VSCode", Some("Development IDEs")),
        entry("Paint", None),
    ]
}

#[test]
fn example_catalog_groups_and_stealth() {
    let c = example_catalog();
    let groups = build_category_index(&c);
    let names: Vec<&str> = groups.iter().map(|g| g.name.as_str()).collect();
    assert_eq!(names, vec!["Development IDEs", "Privacy & Security", "Other"]);
    for g in &groups {
        assert_eq!(g.count(), 1);
    }
    assert_eq!(groups[0].members, vec![1]);
    assert_eq!(groups[1].members, vec![0]);
    assert_eq!(groups[2].members, vec![2]);
    assert_eq!(filter_programs(&ViewSelector::Stealth, &c), vec![0]);
}

#[test]
fn all_view_is_whole_catalog_in_order() {
    let c = example_catalog();
    assert_eq!(filter_programs(&ViewSelector::All, &c), vec![0, 1, 2]);
    let empty: Vec<ProgramEntry> = Vec::new();
    assert!(filter_programs(&ViewSelector::All, &empty).is_empty());
}

#[test]
fn category_view_matches_group_counts() {
    let c = vec![
        entry("A", Some("Media")),
        entry("B", None),
        entry("C", Some("Media")),
        entry("D", Some("Other")),
        entry("E", Some("Gaming")),
    ];
    let groups = build_category_index(&c);
    for g in &groups {
        let view = filter_programs(&ViewSelector::Category(g.name.clone()), &c);
        assert_eq!(view.len(), g.count());
        assert_eq!(view, g.members);
        for &i in &view {
            assert_eq!(c[i].category.as_deref().unwrap_or("Other"), g.name);
        }
    }
    assert_eq!(filter_programs(&ViewSelector::Category("Other".to_string()), &c), vec![1, 3]);
    assert_eq!(filter_programs(&ViewSelector::Category("Media".to_string()), &c), vec![0, 2]);
}

#[test]
fn unknown_category_gives_empty_view() {
    let c = example_catalog();
    assert!(filter_programs(&ViewSelector::Category("Nothing".to_string()), &c).is_empty());
    assert!(filter_programs(&ViewSelector::Category("development ides".to_string()), &c).is_empty());
}

#[test]
fn index_puts_curated_first_then_sorted() {
    let c = vec![
        entry("z", Some("Zeta")),
        entry("v", Some("Virtualization")),
        entry("a", Some("Alpha")),
        entry("b", Some("Browsers")),
        entry("m", Some("Media")),
        entry("b2", Some("Browsers")),
        entry("o", None),
        entry("l", Some("alpha")),
    ];
    let groups = build_category_index(&c);
    let names: Vec<&str> = groups.iter().map(|g| g.name.as_str()).collect();
    assert_eq!(names, vec!["Browsers", "Media", "Virtualization", "Alpha", "Other", "Zeta", "alpha"]);
    assert_eq!(groups[0].members, vec![3, 5]);
    let mut reversed = c.clone();
    reversed.reverse();
    let again = build_category_index(&reversed);
    let names_again: Vec<&str> = again.iter().map(|g| g.name.as_str()).collect();
    assert_eq!(names, names_again);
}

#[test]
fn empty_catalog_has_no_groups() {
    let c: Vec<ProgramEntry> = Vec::new();
    assert!(build_category_index(&c).is_empty());
    assert!(filter_programs(&ViewSelector::Stealth, &c).is_empty());
}

#[test]
fn stealth_heuristic_examples() {
    assert!(stealth_candidate(&entry("Anything", Some("Privacy & Security"))));
    assert!(!stealth_candidate(&entry("FastBrowser", Some("Browsers"))));
    assert!(stealth_candidate(&entry("ProtonVPN", Some("Network"))));
    assert!(stealth_candidate(&entry("Privacy Badger", Some("Browsers"))));
    assert!(stealth_candidate(&entry("Security Scanner", Some("Security"))));
    assert!(stealth_candidate(&entry("NordVPN", None)));
    assert!(!stealth_candidate(&entry("Paint", None)));
}

#[test]
fn priority_order_is_fixed() {
    assert_eq!(priority_category(0), "Browsers");
    assert_eq!(priority_category(7), "Privacy & Security");
    assert_eq!(priority_category(17), "Virtualization");
    assert!(is_priority_category("Cloud Storage"));
    assert!(!is_priority_category("Other"));
    assert!(!is_priority_category("browsers"));
}

#[test]
fn icons_ignore_case() {
    assert_eq!(category_icon("Browsers"), "\u{1F310}");
    assert_eq!(category_icon("BROWSERS"), "\u{1F310}");
    assert_eq!(category_icon("Development IDEs"), "\u{1F4BB}");
    assert_eq!(category_icon("Privacy & Security"), "\u{1F512}");
    assert_eq!(category_icon("Utilities"), "\u{2699}");
    assert_eq!(category_icon("Communication"), "\u{1F4AC}");
    assert_eq!(category_icon("Other"), "\u{1F4C1}");
    assert_eq!(category_icon("Development Tools"), "\u{1F4C1}");
}

#[test]
fn labels_have_icon_name_and_count() {
    let c = vec![entry("A", Some("Media")), entry("B", Some("Media")), entry("C", Some("Cloud Storage"))];
    let groups = build_category_index(&c);
    assert_eq!(category_label(&groups[0]), "\u{1F3AC} Media (2)");
    assert_eq!(category_label(&groups[1]), "\u{1F4C1} Cloud Storage (1)");
    let labels = tree_labels(&groups);
    assert_eq!(labels.len(), 5);
    assert_eq!(labels[2], "\u{2500}".repeat(13));
    assert_eq!(labels[3], "\u{1F6E1} Stealth Mode");
    assert_eq!(labels[4], "\u{1F4E6} All Software");
}

#[test]
fn tree_labels_end_with_fixed_views() {
    let groups = build_category_index(&Vec::new());
    let labels = tree_labels(&groups);
    assert_eq!(labels.len(), 3);
    assert_eq!(labels[1], "\u{1F6E1} Stealth Mode");
    assert_eq!(labels[2], "\u{1F4E6} All Software");
}

#[test]
fn label_parsing_recovers_whole_name() {
    assert_eq!(category_in_label("\u{1F4BB} Development IDEs (12)"), "Development IDEs");
    assert_eq!(category_in_label("\u{1F3AC} Media (3)"), "Media");
    assert_eq!(category_in_label("\u{1F4C1} A (B) (4)"), "A (B)");
    assert_eq!(category_in_label("nospace"), "");
    assert_eq!(category_in_label("x Plain"), "Plain");
    let c = vec![entry("A", Some("Privacy & Security")), entry("B", Some("System Tools"))];
    for g in build_category_index(&c) {
        assert_eq!(category_in_label(&category_label(&g)), g.name);
    }
}

#[test]
fn label_selects_view() {
    assert!(matches!(selector_for_label("\u{1F4E6} All Software"), ViewSelector::All));
    assert!(matches!(selector_for_label("\u{1F6E1} Stealth Mode"), ViewSelector::Stealth));
    match selector_for_label("\u{1F310} Browsers (2)") {
        ViewSelector::Category(k) => assert_eq!(k, "Browsers"),
        _ => panic!("expected a category view"),
    }
    match selector_for_label(&"\u{2500}".repeat(13)) {
        ViewSelector::Category(k) => assert_eq!(k, ""),
        _ => panic!("expected a category view"),
    }
}

#[test]
fn text_helpers() {
    assert_eq!(decimal(0), "0");
    assert_eq!(decimal(7), "7");
    assert_eq!(decimal(10), "10");
    assert_eq!(decimal(4096), "4096");
    assert_eq!(decimal(usize::MAX), usize::MAX.to_string());
    assert!(contains_text("Tor Browser", "Tor"));
    assert!(contains_text("abc", ""));
    assert!(!contains_text("ab", "abc"));
    assert!(!contains_text("Browsers", "Security"));
    assert!(same_text("a b", "a b"));
    assert!(!same_text("a", "A"));
    assert!(text_less("Alpha", "Zeta"));
    assert!(text_less("Zeta", "alpha"));
    assert!(text_less("Ab", "Abc"));
    assert!(!text_less("Abc", "Abc"));
    assert!(!text_less("b", "a"));
}

#[test]
fn rows_use_placeholders() {
    let mut e = ProgramEntry::named("Tool");
    let r = e.row();
    assert_eq!(r.name, "Tool");
    assert_eq!(r.version, "Latest");
    assert_eq!(r.size, "Unknown");
    assert_eq!(r.status, "Ready");
    assert_eq!(r.vendor, "Unknown");
    e.version = Some("1.2".to_string());
    e.size = Some("5 MB".to_string());
    e.vendor = Some("Acme".to_string());
    let r = e.row();
    assert_eq!(r.version, "1.2");
    assert_eq!(r.size, "5 MB");
    assert_eq!(r.vendor, "Acme");
    assert_eq!(field_or(&None, "x"), "x");
    let _ = SoftwareCatalog { software: vec![e] };
}
