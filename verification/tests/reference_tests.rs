use vault_inject::failure::Failure;
use vault_inject::reference::{
    is_secret_reference, parse_reference, ApiVersion, SecretReference, SCHEME, SCHEME_LENGTH,
};
use vault_inject::text::{chars_of, same_text, split_spans};

fn reference(mount: &str, path: &str, field: &str) -> SecretReference {
    SecretReference {
        version: ApiVersion::V2,
        mount: mount.to_string(),
        path: path.to_string(),
        field: field.to_string(),
    }
}

#[test]
fn scheme_is_the_vault_prefix() {
    assert_eq!(SCHEME, "vault://");
    assert_eq!(SCHEME.chars().count(), SCHEME_LENGTH);
}

#[test]
fn literal_values_are_not_references() {
    assert!(!is_secret_reference("plain"));
    assert!(!is_secret_reference(""));
    assert!(!is_secret_reference("vault:/"));
    assert!(!is_secret_reference(" vault://v2/a/b/c"));
    assert!(!is_secret_reference("VAULT://v2/a/b/c"));
    assert_eq!(parse_reference("plain"), Ok(None));
    assert_eq!(parse_reference(""), Ok(None));
    assert_eq!(parse_reference("http://host/v2/a/b/c"), Ok(None));
}

#[test]
fn prefixed_values_are_references() {
    assert!(is_secret_reference("vault://"));
    assert!(is_secret_reference("vault://v2/secret/data/db/password"));
}

#[test]
fn four_segments_name_mount_path_and_field() {
    assert_eq!(
        parse_reference("vault://v2/secret/group/key"),
        Ok(Some(reference("secret", "group", "key")))
    );
}

#[test]
fn inner_segments_form_the_secret_path() {
    assert_eq!(
        parse_reference("vault://v2/secret/data/db/password"),
        Ok(Some(reference("secret", "data/db", "password")))
    );
    assert_eq!(
        parse_reference("vault://v2/kv/a/b/c/d/e"),
        Ok(Some(reference("kv", "a/b/c/d", "e")))
    );
}

#[test]
fn empty_segments_count_as_segments() {
    assert_eq!(parse_reference("vault://v2//b/c"), Ok(Some(reference("", "b", "c"))));
    assert_eq!(parse_reference("vault://v2/a/b/"), Ok(Some(reference("a", "b", ""))));
    assert_eq!(parse_reference("vault://v2/a//b/c"), Ok(Some(reference("a", "/b", "c"))));
}

#[test]
fn a_later_prefix_is_part_of_the_path() {
    assert_eq!(
        parse_reference("vault://v2/a/vault://b/c"),
        Ok(Some(reference("a", "vault://b", "c")))
    );
}

#[test]
fn non_ascii_segments_are_kept() {
    assert_eq!(
        parse_reference("vault://v2/gehe\u{00ef}m/pfad/schl\u{00fc}ssel"),
        Ok(Some(reference("gehe\u{00ef}m", "pfad", "schl\u{00fc}ssel")))
    );
}

#[test]
fn unsupported_version_is_rejected() {
    assert_eq!(
        parse_reference("vault://v1/a/b/c"),
        Err(Failure::UnsupportedApiVersion("vault://v1/a/b/c".to_string()))
    );
    assert_eq!(
        parse_reference("vault://v3/a/b/c"),
        Err(Failure::UnsupportedApiVersion("vault://v3/a/b/c".to_string()))
    );
    assert_eq!(
        parse_reference("vault://v22/a/b/c"),
        Err(Failure::UnsupportedApiVersion("vault://v22/a/b/c".to_string()))
    );
    assert_eq!(
        parse_reference("vault://V2/a/b/c"),
        Err(Failure::UnsupportedApiVersion("vault://V2/a/b/c".to_string()))
    );
    assert_eq!(
        parse_reference("vault:///a/b/c"),
        Err(Failure::UnsupportedApiVersion("vault:///a/b/c".to_string()))
    );
}

#[test]
fn short_reference_is_malformed() {
    assert_eq!(
        parse_reference("vault://v2/a"),
        Err(Failure::MalformedReference("vault://v2/a".to_string()))
    );
    assert_eq!(
        parse_reference("vault://v2/a/b"),
        Err(Failure::MalformedReference("vault://v2/a/b".to_string()))
    );
    assert_eq!(
        parse_reference("vault://"),
        Err(Failure::MalformedReference("vault://".to_string()))
    );
}

#[test]
fn segment_count_is_checked_before_the_version() {
    assert_eq!(
        parse_reference("vault://v1/a"),
        Err(Failure::MalformedReference("vault://v1/a".to_string()))
    );
}

#[test]
fn chars_of_lists_every_character() {
    assert_eq!(chars_of("a/\u{00fc}"), vec!['a', '/', '\u{00fc}']);
    assert_eq!(chars_of(""), Vec::<char>::new());
}

#[test]
fn same_text_compares_character_by_character() {
    assert!(same_text("run", "run"));
    assert!(same_text("", ""));
    assert!(!same_text("run", "ruN"));
    assert!(!same_text("run", "runs"));
    assert!(!same_text("", "x"));
}

#[test]
fn split_spans_cuts_at_every_separator() {
    let chars = chars_of("ab/c//d");
    assert_eq!(split_spans(&chars, 0, '/'), vec![(0, 2), (3, 4), (5, 5), (6, 7)]);
    assert_eq!(split_spans(&chars, 3, '/'), vec![(3, 4), (5, 5), (6, 7)]);
    assert_eq!(split_spans(&chars, 7, '/'), vec![(7, 7)]);
    assert_eq!(split_spans(&chars_of(""), 0, '/'), vec![(0, 0)]);
    assert_eq!(split_spans(&chars_of("/"), 0, '/'), vec![(0, 0), (1, 1)]);
    assert_eq!(split_spans(&chars_of("abc"), 0, '/'), vec![(0, 3)]);
}
