use apex::git::{blame_date_from_porcelain, changed_files_from_output, epoch_to_date, parse_i64_exec};

#[test]
fn epoch_to_date_known_dates() {
    assert_eq!(epoch_to_date(0), "1970-01-01");
    assert_eq!(epoch_to_date(19889), "2024-06-15");
    assert_eq!(epoch_to_date(20526), "2026-03-14");
}

#[test]
fn epoch_to_date_far_dates() {
    assert_eq!(epoch_to_date(-1), "1969-12-31");
    assert_eq!(epoch_to_date(-719468), "0000-03-01");
    assert_eq!(epoch_to_date(-719469), "0000-02-29");
    assert_eq!(epoch_to_date(-719834), "-001-03-01");
    assert_eq!(epoch_to_date(11016), "2000-02-29");
    assert_eq!(epoch_to_date(2932896), "9999-12-31");
    assert_eq!(epoch_to_date(2932897), "10000-01-01");
}

#[test]
fn blame_porcelain_gives_author_date() {
    let porcelain = "abc123 1 1 1\nauthor John\nauthor-mail <j@example.com>\nauthor-time 1718409600\nauthor-tz +0000\n";
    assert_eq!(blame_date_from_porcelain(porcelain), Some("2024-06-15".to_string()));
    assert_eq!(blame_date_from_porcelain("abc123 1 1 1\nauthor John\n"), None);
    assert_eq!(blame_date_from_porcelain("author-time x\nauthor-time  86399 \n"), Some("1970-01-01".to_string()));
    assert_eq!(blame_date_from_porcelain("author-time -1\n"), Some("1970-01-01".to_string()));
    assert_eq!(blame_date_from_porcelain("author-time -86400\n"), Some("1969-12-31".to_string()));
}

#[test]
fn parse_i64_bounds() {
    let c = |s: &str| s.chars().collect::<Vec<char>>();
    assert_eq!(parse_i64_exec(&c("9223372036854775807")), Some(i64::MAX));
    assert_eq!(parse_i64_exec(&c("-9223372036854775808")), Some(i64::MIN));
    assert_eq!(parse_i64_exec(&c("9223372036854775808")), None);
    assert_eq!(parse_i64_exec(&c("+12")), Some(12));
    assert_eq!(parse_i64_exec(&c("-")), None);
    assert_eq!(parse_i64_exec(&c("")), None);
    assert_eq!(parse_i64_exec(&c("1a")), None);
}

#[test]
fn changed_files_parses_name_only_output() {
    assert_eq!(changed_files_from_output("src/main.rs\nsrc/lib.rs\n"), vec!["src/main.rs", "src/lib.rs"]);
    assert!(changed_files_from_output("").is_empty());
    assert_eq!(changed_files_from_output("  a.rs  \n\n   \nb.rs"), vec!["a.rs", "b.rs"]);
}
