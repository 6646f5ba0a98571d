use chrono::NaiveDate;
use crustdown::content_parser::{
    is_delimiter_line, metadata_with_date, missing_field, parse_content, parse_entry,
    parse_front_matter, parse_metadata, parse_site_config,
};
use crustdown::entities::{ContentKind, Date, MetadataError, ParseError, RequiredField};
use crustdown::front_matter::FrontMatter;
use std::collections::HashMap;

fn dedent(text: &str) -> String {
    let indent = text
        .lines()
        .filter(|line| !line.trim().is_empty())
        .map(|line| line.len() - line.trim_start().len())
        .min()
        .unwrap_or(0);
    text.split('\n')
        .map(|line| if line.trim().is_empty() { "" } else { &line[indent..] })
        .collect::<Vec<&str>>()
        .join("\n")
}

fn as_map(front_matter: &FrontMatter) -> HashMap<String, String> {
    front_matter.entries().iter().cloned().collect()
}

fn front_matter_from(entries: &[(&str, &str)]) -> FrontMatter {
    let mut front_matter = FrontMatter::new();
    for (key, value) in entries {
        front_matter.insert(key.to_string(), value.to_string());
    }
    front_matter
}

#[test]
fn test_parse_content_ok() {
    let content = dedent(
        "
        ---
        title: My First Post
        date: 2021-01-01
        ---
        This is my first post.
        ",
    );
    let content = content.trim();

    let expected_front_matter = HashMap::from([
        ("title".to_string(), "My First Post".to_string()),
        ("date".to_string(), "2021-01-01".to_string()),
    ]);
    let expected_body = "This is my first post.";

    let post = parse_content("test.md", &content).unwrap();
    assert_eq!(as_map(&post.front_matter), expected_front_matter);
    assert_eq!(post.body, expected_body);
    assert_eq!(post.og_path, "test.md");
}

#[test]
fn test_parse_content_with_blank_front_matter() {
    let content = dedent(
        "
        ---
        ---
        This is my first post.
        ",
    );
    let content = content.trim();

    let expected_front_matter: HashMap<String, String> = HashMap::new();
    let expected_body = "This is my first post.";

    let post = parse_content("test.md", &content).unwrap();
    assert_eq!(as_map(&post.front_matter), expected_front_matter);
    assert_eq!(post.body, expected_body);
    assert_eq!(post.og_path, "test.md");
}

#[test]
fn test_parse_content_with_blank_body() {
    let content = dedent(
        "
        ---
        title: My First Post
        date: 2021-01-01
        ---
        ",
    );
    let content = content.trim();

    let expected_front_matter = HashMap::from([
        ("title".to_string(), "My First Post".to_string()),
        ("date".to_string(), "2021-01-01".to_string()),
    ]);
    let expected_body = "";

    let post = parse_content("test.md", &content).unwrap();
    assert_eq!(as_map(&post.front_matter), expected_front_matter);
    assert_eq!(post.body, expected_body);
    assert_eq!(post.og_path, "test.md");
}

#[test]
fn test_parse_front_matter_ok() {
    let front_matter = vec![
        "title: My First Post".to_string(),
        "date: 2021-01-01".to_string(),
    ];
    let front_matter = parse_front_matter(front_matter).unwrap();
    assert_eq!(
        front_matter.get("title"),
        Some(&"My First Post".to_string())
    );
    assert_eq!(front_matter.get("date"), Some(&"2021-01-01".to_string()));
}

#[test]
fn test_parse_front_matter_empty_field() {
    let front_matter = vec!["title: My First Post".to_string(), "date:".to_string()];
    let front_matter = parse_front_matter(front_matter).unwrap();
    assert_eq!(
        front_matter.get("title"),
        Some(&"My First Post".to_string())
    );
    assert_eq!(front_matter.get("date"), None);
}

#[test]
fn test_parse_front_matter_empty() {
    let front_matter = vec![];
    let front_matter = parse_front_matter(front_matter).unwrap();
    assert_eq!(front_matter.len(), 0);
}

#[test]
fn test_parse_metadata_ok() {
    let front_matter = front_matter_from(&[
        ("title", "My First Post"),
        ("date", "2021-01-01"),
        ("description", "This is my first post"),
        ("tags", "tag1,tag2"),
    ]);

    let metadata = parse_metadata(front_matter).unwrap();
    assert_eq!(metadata.title, "My First Post");
    assert_eq!(
        NaiveDate::from_ymd_opt(metadata.date.year, metadata.date.month, metadata.date.day)
            .unwrap(),
        NaiveDate::from_ymd_opt(2021, 1, 1).unwrap()
    );
    assert_eq!(metadata.description, "This is my first post");
    assert_eq!(metadata.tags, vec!["tag1", "tag2"]);
    assert_eq!(metadata.extras.len(), 0);
}

#[test]
fn test_parse_metadata_ok_extras() {
    let front_matter = front_matter_from(&[
        ("title", "My First Post"),
        ("date", "2021-01-01"),
        ("description", "This is my first post"),
        ("tags", "tag1,tag2"),
        ("hello", "world"),
        ("foo", "bar"),
    ]);

    let metadata = parse_metadata(front_matter).unwrap();
    assert_eq!(metadata.title, "My First Post");
    assert_eq!(
        NaiveDate::from_ymd_opt(metadata.date.year, metadata.date.month, metadata.date.day)
            .unwrap(),
        NaiveDate::from_ymd_opt(2021, 1, 1).unwrap()
    );
    assert_eq!(metadata.description, "This is my first post");
    assert_eq!(metadata.tags, vec!["tag1", "tag2"]);
    assert_eq!(metadata.extras.len(), 2);
    assert_eq!(metadata.extras.get("hello"), Some(&"world".to_string()));
    assert_eq!(metadata.extras.get("foo"), Some(&"bar".to_string()));
}

#[test]
fn test_parse_metadata_invalid_date() {
    let front_matter = front_matter_from(&[
        ("title", "My First Post"),
        ("date", "invalid-date"),
        ("description", "This is my first post"),
        ("tags", "tag1,tag2"),
    ]);

    let result = parse_metadata(front_matter);
    assert!(result.is_err());
    assert!(result
        .err()
        .unwrap()
        .message()
        .contains("Invalid date format"));
}

#[test]
fn test_parse_metadata_missing_required_fields() {
    let front_matter = front_matter_from(&[("title", "My First Post")]);

    let result = parse_metadata(front_matter);
    assert!(result.is_err());
    assert_eq!(result.err().unwrap().message(), "Description is required");
}

#[test]
fn missing_description_is_reported_by_name() {
    let front_matter = front_matter_from(&[
        ("title", "My First Post"),
        ("date", "2021-01-01"),
        ("tags", "tag1,tag2"),
    ]);
    match parse_metadata(front_matter) {
        Err(MetadataError::MissingField(field)) => {
            assert_eq!(field, RequiredField::Description);
            assert_eq!(field.name(), "description");
        }
        _ => panic!("expected a missing field"),
    }
}

#[test]
fn single_entry_document_gives_one_entry_and_the_body() {
    for (key, value, body) in [
        ("key", "value", "BODY"),
        ("title", "a: b", "one\ntwo"),
        ("", "x", ""),
        ("k", "v", "---\nstill body"),
    ] {
        let content = format!("---\n{}: {}\n---\n{}", key, value, body);
        let post = parse_content("test.md", &content).unwrap();
        let expected = HashMap::from([(key.to_string(), value.to_string())]);
        assert_eq!(as_map(&post.front_matter), expected, "{:?}", content);
        assert_eq!(post.body, body, "{:?}", content);
        assert_eq!(post.kind, ContentKind::Markdown);
    }
}

#[test]
fn blank_front_matter_leaves_the_body_as_it_is() {
    for body in ["", "BODY", "one\ntwo\n\nthree", "key: value"] {
        let content = format!("---\n---\n{}", body);
        let post = parse_content("test.md", &content).unwrap();
        assert_eq!(post.front_matter.len(), 0);
        assert!(post.front_matter.is_empty());
        assert_eq!(post.body, body);
    }
}

#[test]
fn empty_value_is_absent_from_the_mapping() {
    let post = parse_content("test.md", "---\ntitle: T\ndate:\ntags:   \n---\n").unwrap();
    assert_eq!(post.front_matter.get("date"), None);
    assert!(!post.front_matter.contains_key("date"));
    assert!(!post.front_matter.contains_key("tags"));
    assert_eq!(post.front_matter.len(), 1);
}

#[test]
fn empty_text_has_no_front_matter() {
    assert_eq!(parse_content("test.md", "").err(), Some(ParseError::NoFrontMatter));
}

#[test]
fn text_without_opening_delimiter_has_no_front_matter() {
    for content in ["title: x\n---\nbody", "\n---\n---\n", "--\n---\n", " ---\n---\n", "body"] {
        assert_eq!(
            parse_content("test.md", content).err(),
            Some(ParseError::NoFrontMatter),
            "{:?}",
            content
        );
    }
}

#[test]
fn parse_error_has_its_message() {
    assert_eq!(ParseError::NoFrontMatter.message(), "No front matter found");
}

#[test]
fn delimiter_line_may_carry_more_characters() {
    let post = parse_content("test.md", "--- yaml\ntitle: T\n----\nbody").unwrap();
    assert_eq!(post.front_matter.get("title"), Some(&"T".to_string()));
    assert_eq!(post.front_matter.len(), 1);
    assert_eq!(post.body, "body");
    assert!(is_delimiter_line("---"));
    assert!(is_delimiter_line("---- x"));
    assert!(!is_delimiter_line("--"));
    assert!(!is_delimiter_line(" ---"));
    assert!(!is_delimiter_line(""));
}

#[test]
fn document_without_closing_delimiter_is_all_front_matter() {
    let post = parse_content("test.md", "---\ntitle: T\ndate: 2021-01-01").unwrap();
    assert_eq!(post.front_matter.len(), 2);
    assert_eq!(post.body, "");
}

#[test]
fn delimiter_lines_in_the_body_stay_in_the_body() {
    let post = parse_content("test.md", "---\ntitle: T\n---\nabove\n---\nbelow").unwrap();
    assert_eq!(post.front_matter.len(), 1);
    assert_eq!(post.body, "above\n---\nbelow");
}

#[test]
fn body_lines_are_joined_by_line_feeds() {
    let post = parse_content("test.md", "---\n---\none\r\ntwo\n\nthree\n").unwrap();
    assert_eq!(post.body, "one\ntwo\n\nthree");
}

#[test]
fn line_without_separator_is_skipped() {
    let lines = vec![
        "no separator here".to_string(),
        "title: T".to_string(),
        "".to_string(),
    ];
    let front_matter = parse_front_matter(lines).unwrap();
    assert_eq!(front_matter.len(), 1);
    assert_eq!(front_matter.get("title"), Some(&"T".to_string()));
    assert_eq!(parse_entry("no separator here"), None);
}

#[test]
fn entry_is_split_at_the_first_colon_and_trimmed() {
    assert_eq!(
        parse_entry("  url :  http://example.com:80/  "),
        Some(("url".to_string(), "http://example.com:80/".to_string()))
    );
    assert_eq!(parse_entry(": v"), Some(("".to_string(), "v".to_string())));
    assert_eq!(parse_entry("date:"), None);
    assert_eq!(parse_entry("date: \t"), None);
}

#[test]
fn later_line_wins_on_a_repeated_key() {
    let lines = vec![
        "title: first".to_string(),
        "date: 2021-01-01".to_string(),
        "title: second".to_string(),
    ];
    let front_matter = parse_front_matter(lines).unwrap();
    assert_eq!(front_matter.len(), 2);
    assert_eq!(front_matter.get("title"), Some(&"second".to_string()));
    assert_eq!(front_matter.entries()[0].0, "title");
}

#[test]
fn tags_are_split_and_trimmed_in_order() {
    let front_matter = front_matter_from(&[
        ("title", "T"),
        ("description", "D"),
        ("date", "2021-01-01"),
        ("tags", "tag1, tag2"),
    ]);
    let metadata = parse_metadata(front_matter).unwrap();
    assert_eq!(metadata.tags, vec!["tag1", "tag2"]);
}

#[test]
fn tags_without_comma_are_one_tag() {
    let front_matter = front_matter_from(&[
        ("title", "T"),
        ("description", "D"),
        ("date", "2021-01-01"),
        ("tags", " solo "),
    ]);
    let metadata = parse_metadata(front_matter).unwrap();
    assert_eq!(metadata.tags, vec!["solo"]);
}

#[test]
fn each_missing_field_is_reported_in_order() {
    let all = [
        ("title", "T"),
        ("description", "D"),
        ("date", "2021-01-01"),
        ("tags", "a"),
    ];
    let expected = [
        (RequiredField::Title, "title", "Title is required"),
        (RequiredField::Description, "description", "Description is required"),
        (RequiredField::Date, "date", "Date is required"),
        (RequiredField::Tags, "tags", "Tags are required"),
    ];
    for (skip, (field, name, message)) in expected.iter().enumerate() {
        let mut present = all.to_vec();
        present.remove(skip);
        assert_eq!(missing_field(&front_matter_from(&present)), Some(*field));
        let error = parse_metadata(front_matter_from(&present)).err().unwrap();
        assert_eq!(error.message(), *message);
        assert_eq!(field.name(), *name);
        match error {
            MetadataError::MissingField(found) => assert_eq!(found, *field),
            MetadataError::InvalidDate(_) => panic!("expected a missing field"),
        }
    }
    assert_eq!(missing_field(&front_matter_from(&all)), None);
}

#[test]
fn missing_field_comes_before_invalid_date() {
    let front_matter = front_matter_from(&[
        ("title", "T"),
        ("description", "D"),
        ("date", "not a date"),
    ]);
    match parse_metadata(front_matter) {
        Err(MetadataError::MissingField(field)) => assert_eq!(field, RequiredField::Tags),
        _ => panic!("expected a missing field"),
    }
}

#[test]
fn invalid_date_carries_the_diagnostic() {
    let front_matter = front_matter_from(&[
        ("title", "T"),
        ("description", "D"),
        ("date", "2021-13-01"),
        ("tags", "a"),
    ]);
    match parse_metadata(front_matter) {
        Err(MetadataError::InvalidDate(reason)) => {
            let expected = NaiveDate::parse_from_str("2021-13-01", "%Y-%m-%d")
                .err()
                .unwrap()
                .to_string();
            assert_eq!(reason, expected);
            assert_eq!(
                MetadataError::InvalidDate(reason).message(),
                format!("Invalid date format: {}. Expected YYYY-MM-DD", expected)
            );
        }
        _ => panic!("expected an invalid date"),
    }
}

#[test]
fn date_is_read_as_year_month_day() {
    let front_matter = front_matter_from(&[
        ("title", "T"),
        ("description", "D"),
        ("date", "1999-12-31"),
        ("tags", "a"),
    ]);
    let metadata = parse_metadata(front_matter).unwrap();
    assert_eq!(metadata.date, Date { year: 1999, month: 12, day: 31 });
}

#[test]
fn metadata_with_date_takes_the_date_as_given() {
    let entries = [
        ("title", "T"),
        ("description", "D"),
        ("date", "whatever"),
        ("tags", "a,b"),
        ("extra", "e"),
    ];
    let date = Date { year: 2020, month: 2, day: 29 };
    let metadata = metadata_with_date(front_matter_from(&entries), Ok(date)).unwrap();
    assert_eq!(metadata.title, "T");
    assert_eq!(metadata.description, "D");
    assert_eq!(metadata.date, date);
    assert_eq!(metadata.tags, vec!["a", "b"]);
    assert_eq!(
        metadata.extras.entries(),
        &vec![("extra".to_string(), "e".to_string())]
    );
    match metadata_with_date(front_matter_from(&entries), Err("bad".to_string())) {
        Err(MetadataError::InvalidDate(reason)) => assert_eq!(reason, "bad"),
        _ => panic!("expected an invalid date"),
    }
    match metadata_with_date(front_matter_from(&entries[1..]), Ok(date)) {
        Err(MetadataError::MissingField(field)) => assert_eq!(field, RequiredField::Title),
        _ => panic!("expected a missing field"),
    }
}

#[test]
fn extraction_leaves_the_front_matter_of_the_document_alone() {
    let post = parse_content(
        "test.md",
        "---\ntitle: T\ndescription: D\ndate: 2021-01-01\ntags: a\nfoo: bar\n---\n",
    )
    .unwrap();
    let metadata = parse_metadata(post.front_matter.clone()).unwrap();
    assert_eq!(metadata.extras.len(), 1);
    assert_eq!(post.front_matter.len(), 5);
    assert_eq!(post.front_matter.get("title"), Some(&"T".to_string()));
}

#[test]
fn site_config_states_title_and_description() {
    let config = parse_site_config("title: My Site\ndescription: All about it\n").unwrap();
    assert_eq!(config.title, "My Site");
    assert_eq!(config.description, "All about it");
}

#[test]
fn site_config_needs_both_fields() {
    match parse_site_config("description: D\n") {
        Err(MetadataError::MissingField(field)) => assert_eq!(field, RequiredField::Title),
        _ => panic!("expected a missing field"),
    }
    match parse_site_config("title: T\n") {
        Err(MetadataError::MissingField(field)) => assert_eq!(field, RequiredField::Description),
        _ => panic!("expected a missing field"),
    }
    assert!(parse_site_config("").is_err());
}

#[test]
fn date_must_be_written_as_year_month_day() {
    for date in ["2021-1-1", "2021-01-1", "+2021-01-01", "2021- 1-01", "02021-01-01", "21-01-01"] {
        let front_matter = front_matter_from(&[
            ("title", "T"),
            ("description", "D"),
            ("date", date),
            ("tags", "a"),
        ]);
        match parse_metadata(front_matter) {
            Err(MetadataError::InvalidDate(_)) => {}
            _ => panic!("{:?} is no date", date),
        }
    }
}

#[test]
fn date_that_chrono_reads_in_another_shape_has_its_own_complaint() {
    let front_matter = front_matter_from(&[
        ("title", "T"),
        ("description", "D"),
        ("date", "2021-1-1"),
        ("tags", "a"),
    ]);
    assert!(NaiveDate::parse_from_str("2021-1-1", "%Y-%m-%d").is_ok());
    let error = parse_metadata(front_matter).err().unwrap();
    assert_eq!(
        error.message(),
        "Invalid date format: input is not written as YYYY-MM-DD. Expected YYYY-MM-DD"
    );
}
