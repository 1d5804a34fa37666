use emergency_backup::config::{
    backup_mode, extensions_from_config, extensions_from_lines, parse_source_line, quoted_extension_list,
    source_from_config,
};
use emergency_backup::text::{is_blank, split_whitespace, trim_end_str};

fn strings(v: &[&str]) -> Vec<String> {
    v.iter().map(|s| s.to_string()).collect()
}

#[test]
fn source_line_loses_trailing_whitespace() {
    assert_eq!(
        parse_source_line("C:\\Users\\me\\Documents  \r\n"),
        Some("C:\\Users\\me\\Documents".to_string())
    );
    assert_eq!(parse_source_line("  /home/me/docs\n"), Some("  /home/me/docs".to_string()));
    assert_eq!(parse_source_line("/a b/c\u{3000}\t"), Some("/a b/c".to_string()));
}

#[test]
fn blank_source_line_is_rejected() {
    assert_eq!(parse_source_line(""), None);
    assert_eq!(parse_source_line(" \t\r\n"), None);
    assert_eq!(parse_source_line("\u{a0}\u{2003}"), None);
}

#[test]
fn extensions_are_the_words_of_the_lines() {
    let lines = strings(&["txt pdf", "  docx\tjpg  ", "", "   ", "png"]);
    assert_eq!(extensions_from_lines(&lines), strings(&["txt", "pdf", "docx", "jpg", "png"]));
    assert_eq!(extensions_from_lines(&vec![]), Vec::<String>::new());
}

#[test]
fn words_match_std() {
    for s in ["", "  ", "a", " a b  c ", "\tx\u{85}y\u{2028}z", "żółw  ćma", "a,b c"] {
        let ours = split_whitespace(s);
        let theirs: Vec<String> = s.split_whitespace().map(|w| w.to_string()).collect();
        assert_eq!(ours, theirs);
        assert_eq!(trim_end_str(s), s.trim_end());
        assert_eq!(is_blank(s), s.trim().is_empty());
    }
}

#[test]
fn extension_list_is_quoted_and_comma_separated() {
    assert_eq!(quoted_extension_list(&strings(&["txt", "pdf", "docx"])), "'txt', 'pdf', 'docx'");
    assert_eq!(quoted_extension_list(&strings(&["txt"])), "'txt'");
    assert_eq!(quoted_extension_list(&vec![]), "");
}

#[test]
fn backup_mode_depends_on_extensions() {
    assert_eq!(backup_mode(&vec![]), "tutti i file");
    assert_eq!(backup_mode(&strings(&["txt"])), "solo file di determinati tipi");
}

fn lines(v: &[Option<&str>]) -> Vec<Option<String>> {
    v.iter().map(|l| l.map(|s| s.to_string())).collect()
}

#[test]
fn config_first_line_is_the_source() {
    assert_eq!(source_from_config(&lines(&[Some("/home/me/docs  "), Some("txt")])), Some("/home/me/docs".to_string()));
    assert_eq!(source_from_config(&lines(&[])), None);
    assert_eq!(source_from_config(&lines(&[None, Some("txt")])), None);
    assert_eq!(source_from_config(&lines(&[Some("   "), Some("/x")])), None);
}

#[test]
fn config_extensions_follow_the_first_line() {
    let cfg = lines(&[Some("/home/me/docs txt"), Some("pdf  docx"), None, Some(" jpg ")]);
    assert_eq!(extensions_from_config(&cfg), strings(&["pdf", "docx", "jpg"]));
    assert_eq!(extensions_from_config(&lines(&[None, Some("txt")])), strings(&["txt"]));
    assert_eq!(extensions_from_config(&lines(&[Some("/x")])), Vec::<String>::new());
    assert_eq!(extensions_from_config(&lines(&[])), Vec::<String>::new());
}
