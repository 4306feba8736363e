use taurin::project::{
    decode_html_entities, extract_html_title, rpg_maker_initial_title, title_in_lowercased,
    trimmed_non_empty, FALLBACK_RPG_MAKER_TITLE,
};

#[test]
fn decode_html_entities_replaces_the_five_entities() {
    assert_eq!(decode_html_entities("Tom &amp; Jerry"), "Tom & Jerry");
    assert_eq!(decode_html_entities("&lt;b&gt;"), "<b>");
    assert_eq!(decode_html_entities("&quot;Hi&quot; &#39;there&#39;"), "\"Hi\" 'there'");
}

#[test]
fn decode_html_entities_applies_replacements_in_order() {
    assert_eq!(decode_html_entities("&amp;lt;"), "<");
    assert_eq!(decode_html_entities("&lt;amp;"), "<amp;");
    assert_eq!(decode_html_entities("&amp;amp;"), "&amp;");
}

#[test]
fn decode_html_entities_leaves_other_text() {
    assert_eq!(decode_html_entities("Plain title"), "Plain title");
    assert_eq!(decode_html_entities("&nbsp; & &amp"), "&nbsp; & &amp");
    assert_eq!(decode_html_entities(""), "");
}

#[test]
fn extract_html_title_finds_the_title() {
    let html = "<!DOCTYPE html>\n<html><head><meta charset=\"UTF-8\">\n<title>Project1</title>\n</head></html>";
    assert_eq!(extract_html_title(html).unwrap(), Some("Project1".to_string()));
}

#[test]
fn extract_html_title_ignores_case_trims_and_decodes() {
    let html = "<HEAD><TITLE lang=\"en\">  Tom &amp; Jerry \n</Title></HEAD>";
    assert_eq!(extract_html_title(html).unwrap(), Some("Tom & Jerry".to_string()));
}

#[test]
fn extract_html_title_keeps_non_ascii_text() {
    let html = "<title>ドラゴン クエスト</title>";
    assert_eq!(extract_html_title(html).unwrap(), Some("ドラゴン クエスト".to_string()));
}

#[test]
fn extract_html_title_without_title() {
    assert_eq!(extract_html_title("<html><body>no title</body></html>").unwrap(), None);
    assert_eq!(extract_html_title("<title").unwrap(), None);
    assert_eq!(extract_html_title("<title>unterminated").unwrap(), None);
    assert_eq!(extract_html_title("").unwrap(), None);
}

#[test]
fn extract_html_title_empty_title() {
    assert_eq!(extract_html_title("<title>   </title>").unwrap(), Some(String::new()));
}

#[test]
fn extract_html_title_reports_misaligned_indices() {
    // U+1E9E lowercases to a character of fewer bytes, so the index of
    // `<title` in the lowercased page falls inside a character of the page.
    assert!(extract_html_title("\u{1E9E}<title>x</title>").is_err());
}

#[test]
fn title_in_lowercased_uses_both_texts() {
    assert_eq!(
        title_in_lowercased("<TITLE>Abc</TITLE>", "<title>abc</title>").unwrap(),
        Some("Abc".to_string())
    );
    assert_eq!(title_in_lowercased("<TITLE>Abc</TITLE>", "<TITLE>abc</TITLE>").unwrap(), None);
}

#[test]
fn trimmed_non_empty_drops_blank_values() {
    assert_eq!(trimmed_non_empty(Some("  icon.png \n")), Some("icon.png".to_string()));
    assert_eq!(trimmed_non_empty(Some(" \t ")), None);
    assert_eq!(trimmed_non_empty(Some("")), None);
    assert_eq!(trimmed_non_empty(None), None);
    assert_eq!(trimmed_non_empty(Some("\u{3000}タイトル\u{3000}")), Some("タイトル".to_string()));
}

#[test]
fn initial_title_prefers_package_title() {
    assert_eq!(
        rpg_maker_initial_title(Some("  My Game  "), Some("<title>Other</title>")).unwrap(),
        "My Game"
    );
}

#[test]
fn initial_title_falls_back_to_html_title() {
    assert_eq!(rpg_maker_initial_title(Some("   "), Some("<title>From Html</title>")).unwrap(), "From Html");
    assert_eq!(rpg_maker_initial_title(None, Some("<title>A &amp; B</title>")).unwrap(), "A & B");
}

#[test]
fn initial_title_falls_back_to_taurin() {
    assert_eq!(FALLBACK_RPG_MAKER_TITLE, "taurin");
    assert_eq!(rpg_maker_initial_title(None, None).unwrap(), "taurin");
    assert_eq!(rpg_maker_initial_title(None, Some("<html></html>")).unwrap(), "taurin");
    assert_eq!(rpg_maker_initial_title(Some(""), Some("<title> </title>")).unwrap(), "taurin");
}

#[test]
fn initial_title_reports_misaligned_html() {
    assert!(rpg_maker_initial_title(None, Some("\u{1E9E}<title>x</title>")).is_err());
    assert_eq!(rpg_maker_initial_title(Some("Pkg"), Some("\u{1E9E}<title>x</title>")).unwrap(), "Pkg");
}
