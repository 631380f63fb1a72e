use herdr_quotr::theme::{default_theme, names, resolve, Appearance, Asset, Embedded, SyntaxChoice};

#[test]
fn every_named_theme_resolves_to_itself() {
    for name in names() {
        assert_eq!(resolve(name).map(|t| t.name), Some(name), "{name} should resolve");
    }
    assert_eq!(names().len(), 19);
}

#[test]
fn an_unknown_name_resolves_to_nothing_and_the_default_stands_in() {
    assert!(resolve("nope").is_none());
    assert!(resolve("terminal").is_none());
    assert!(resolve("Dracula").is_none());
    assert_eq!(default_theme().name, "vs-dark-plus");
}

#[test]
fn a_theme_carries_its_cast_its_syntax_and_its_anchors() {
    let latte = resolve("catppuccin-latte").unwrap();
    assert_eq!(latte.appearance, Appearance::Light);
    assert_eq!(latte.syntax, SyntaxChoice::Embedded(Embedded::CatppuccinLatte));
    assert_eq!(latte.anchors.base, 0xeff1f5);
    assert_eq!(latte.anchors.link, 0x1e66f5);
    let rose = resolve("rose-pine").unwrap();
    assert_eq!(rose.appearance, Appearance::Dark);
    assert_eq!(rose.syntax, SyntaxChoice::Bundled(Asset::RosePine));
    let default = default_theme();
    let named = resolve("vs-dark-plus").unwrap();
    assert_eq!((default.appearance, default.syntax, default.anchors), (named.appearance, named.syntax, named.anchors));
}

#[test]
fn every_accent_is_a_hue_of_its_own() {
    for name in names() {
        let a = resolve(name).unwrap().anchors;
        let accents = [a.code, a.strong, a.heading, a.link];
        for (i, x) in accents.iter().enumerate() {
            assert!(!accents.iter().skip(i + 1).any(|y| y == x), "{name}: {x:#x} is used for two different things");
        }
    }
}
