use sharpr::styles::{accent_classes, icon_color_class, parse_hex_color, pill_color_class, pill_color_rule};

#[test]
fn hex_colors() {
    assert_eq!(parse_hex_color("#ff8000"), Some((255, 128, 0)));
    assert_eq!(parse_hex_color("#57E389"), Some((0x57, 0xe3, 0x89)));
    assert_eq!(parse_hex_color("#+f+f+f"), Some((15, 15, 15)));
    assert_eq!(parse_hex_color("#-f0000"), None);
    assert_eq!(parse_hex_color("#12345"), None);
    assert_eq!(parse_hex_color("57e389"), None);
    assert_eq!(parse_hex_color("#gg0000"), None);
    assert_eq!(parse_hex_color(""), None);
}

#[test]
fn pill_colors() {
    assert_eq!(pill_color_class("#57E389"), "filmstrip-pill-color-57e389");
    assert_eq!(pill_color_class("##AbC"), "filmstrip-pill-color-abc");
    assert_eq!(
        pill_color_rule("filmstrip-pill-color-57e389", "#57e389"),
        Some(".filmstrip-pill-color-57e389 { background-color: rgba(87,227,137,0.92); }".to_string())
    );
    assert_eq!(pill_color_rule("x", "#abc"), None);
    assert_eq!(pill_color_rule("x", "#zzzzzz"), None);
}

#[test]
fn accent_and_icon_classes() {
    let (accent, icon, rule) = accent_classes("rgb(1, 2, 3)");
    assert_eq!(accent, "tag-card-accent-rgb_1__2__3_");
    assert_eq!(icon, "tag-card-icon-rgb_1__2__3_");
    assert_eq!(
        rule,
        ".tag-card-accent-rgb_1__2__3_ { background-color: rgb(1, 2, 3); } .tag-card-icon-rgb_1__2__3_ { color: rgb(1, 2, 3); }"
    );
    let (accent, _, _) = accent_classes("#FF00AA");
    assert_eq!(accent, "tag-card-accent-_ff00aa");
    let (class, rule) = icon_color_class("sharpr-icon-color-", "#62A0EA");
    assert_eq!(class, "sharpr-icon-color-_62a0ea");
    assert_eq!(rule, ".sharpr-icon-color-_62a0ea { color: #62A0EA; }");
}
