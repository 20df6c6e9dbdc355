use hokori::taxonomy::{category_info, Section, Subgroup};

#[test]
fn developer_categories_are_grouped_under_developer() {
    let info = category_info("package-manager-cache");
    assert_eq!(info.section, Section::Developer);
    assert_eq!(info.subgroup, Subgroup::Packages);
}

#[test]
fn narrow_apple_cache_categories_are_consolidated() {
    for category in ["maps-cache", "message-cache", "account-cache"] {
        assert_ne!(category_info(category).label, category);
    }
}

#[test]
fn sections_compare_as_they_are_shown() {
    let shown = [
        Section::QuickCleanup,
        Section::Developer,
        Section::Applications,
        Section::System,
        Section::Analysis,
    ];
    for (i, a) in shown.iter().enumerate() {
        assert_eq!(a.order() as usize, i);
        for (j, b) in shown.iter().enumerate() {
            assert_eq!(a < b, i < j);
            assert_eq!(a.cmp(b), i.cmp(&j));
        }
    }
}
