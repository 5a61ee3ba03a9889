use rhiza::select::selection_of;
use rhiza::shortcut::{read_shortcut, url_target};
use rhiza::text::{is_whitespace, slice, trim};

fn chars(s: &str) -> Vec<char> {
    s.chars().collect()
}

#[test]
fn url_target_reads_the_first_url_of_the_section() {
    let text = "[InternetShortcut]\r\nURL=https://example.com/\r\nIconIndex=0\r\n";
    assert_eq!(url_target(text), Some("https://example.com/".to_string()));
    let two = "[InternetShortcut]\nURL=steam://rungameid/1\nURL=steam://rungameid/2\n";
    assert_eq!(url_target(two), Some("steam://rungameid/1".to_string()));
}

#[test]
fn url_target_needs_the_section_header() {
    assert_eq!(url_target("URL=https://example.com/\n"), None);
    assert_eq!(url_target("URL=a\n[InternetShortcut]\n"), None);
    assert_eq!(url_target("[Other]\nURL=a\n"), None);
    assert_eq!(url_target(""), None);
    assert_eq!(url_target("[InternetShortcut]"), None);
    assert_eq!(url_target("[InternetShortcut]\n\n\n"), None);
}

#[test]
fn url_target_skips_lines_before_and_between() {
    let text = "; comment\nURL=early\n  [InternetShortcut]\t\nIDList=\n url=x\nURL= https://a.b/c \n";
    assert_eq!(url_target(text), Some("https://a.b/c".to_string()));
}

#[test]
fn url_target_key_must_start_the_line() {
    assert_eq!(url_target("[InternetShortcut]\n URL=a\n"), None);
    assert_eq!(url_target("[InternetShortcut]\nBASEURL=a\n"), None);
    assert_eq!(url_target("[InternetShortcut]\nurl=a\n"), None);
}

#[test]
fn url_target_strips_every_leading_key() {
    assert_eq!(url_target("[InternetShortcut]\nURL=URL=x\n"), Some("x".to_string()));
    assert_eq!(url_target("[InternetShortcut]\nURL=\n"), Some("".to_string()));
    assert_eq!(url_target("[InternetShortcut]\nURL=a=URL=b"), Some("a=URL=b".to_string()));
}

#[test]
fn url_target_stays_in_the_section_after_other_headers() {
    assert_eq!(
        url_target("[InternetShortcut]\n[Other]\nURL=kept\n"),
        Some("kept".to_string())
    );
}

#[test]
fn read_shortcut_takes_the_parsed_target_of_a_link() {
    assert_eq!(
        read_shortcut("C:\\a\\Chrome.lnk", Some("C:\\chrome.exe".to_string()), None),
        Some("C:\\chrome.exe".to_string())
    );
    assert_eq!(read_shortcut("C:\\a\\Chrome.lnk", None, Some("[InternetShortcut]\nURL=x".to_string())), None);
}

#[test]
fn read_shortcut_parses_the_text_of_an_internet_shortcut() {
    let text = "[InternetShortcut]\r\nURL=https://example.com/\r\n".to_string();
    assert_eq!(
        read_shortcut("C:\\a\\site.url", Some("ignored".to_string()), Some(text)),
        Some("https://example.com/".to_string())
    );
    assert_eq!(read_shortcut("C:\\a\\site.url", Some("ignored".to_string()), None), None);
    assert_eq!(read_shortcut("C:\\a\\site.url", None, Some("nothing here".to_string())), None);
}

#[test]
fn read_shortcut_goes_by_the_extension_in_any_case() {
    let text = "[InternetShortcut]\nURL=x\n".to_string();
    assert_eq!(
        read_shortcut("C:\\a\\tool.LNK", Some("t".to_string()), Some(text.clone())),
        Some("t".to_string())
    );
    assert_eq!(read_shortcut("C:\\a\\Tool.Lnk", Some("t".to_string()), None), Some("t".to_string()));
    assert_eq!(
        read_shortcut("C:\\a\\SITE.URL", Some("t".to_string()), Some(text)),
        Some("x".to_string())
    );
}

#[test]
fn read_shortcut_resolves_nothing_else() {
    let text = "[InternetShortcut]\nURL=x\n".to_string();
    assert_eq!(read_shortcut("C:\\a\\tool.exe", Some("t".to_string()), Some(text.clone())), None);
    assert_eq!(read_shortcut("C:\\a\\tool.lnk.bak", Some("t".to_string()), Some(text.clone())), None);
    assert_eq!(read_shortcut("C:\\a\\.lnk", Some("t".to_string()), Some(text.clone())), None);
    assert_eq!(read_shortcut("lnk", Some("t".to_string()), Some(text.clone())), None);
    assert_eq!(read_shortcut("", Some("t".to_string()), Some(text)), None);
}

#[test]
fn whitespace_is_what_unicode_says() {
    for c in [' ', '\t', '\n', '\r', '\u{0b}', '\u{0c}', '\u{85}', '\u{a0}', '\u{1680}', '\u{2000}', '\u{200a}', '\u{2028}', '\u{2029}', '\u{202f}', '\u{205f}', '\u{3000}'] {
        assert!(is_whitespace(c));
    }
    for c in ['a', '0', '\u{200b}', '\u{08}', '\u{0e}', '\u{feff}', '_'] {
        assert!(!is_whitespace(c));
    }
}

#[test]
fn whitespace_agrees_with_std_everywhere() {
    let mut n: u32 = 0;
    while n <= 0x10ffff {
        if let Some(c) = char::from_u32(n) {
            assert_eq!(is_whitespace(c), c.is_whitespace());
        }
        n += 1;
    }
}

#[test]
fn trim_and_slice() {
    assert_eq!(trim(&chars("  a b \r\n")), chars("a b"));
    assert_eq!(trim(&chars("   ")), chars(""));
    assert_eq!(trim(&chars("")), chars(""));
    assert_eq!(trim(&chars("x")), chars("x"));
    assert_eq!(slice(&chars("hello"), 1, 3), chars("el"));
    assert_eq!(slice(&chars("hello"), 2, 2), chars(""));
}

#[test]
fn selection_is_the_trimmed_output() {
    assert_eq!(selection_of("C:\\Apps\\x.exe\r\n"), "C:\\Apps\\x.exe");
    assert_eq!(selection_of("  two words \n"), "two words");
    assert_eq!(selection_of("\n"), "");
}
