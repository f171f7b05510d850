use dotenv_buildpack::filename::DotenvBuildpackMetadata;

fn metadata(suffix: &str) -> DotenvBuildpackMetadata {
    DotenvBuildpackMetadata { dotenv_suffix: suffix.to_string() }
}

#[test]
fn empty_suffix_resolves_to_plain_env() {
    assert_eq!(metadata("").filename(None), ".env");
}

#[test]
fn nonempty_suffix_is_appended() {
    assert_eq!(metadata("production").filename(None), ".env.production");
    assert_eq!(metadata("test").filename(None), ".env.test");
}

#[test]
fn override_takes_precedence() {
    assert_eq!(metadata("production").filename(Some("staging")), ".env.staging");
    assert_eq!(metadata("").filename(Some("staging")), ".env.staging");
}

#[test]
fn empty_override_falls_back_to_configured_suffix() {
    assert_eq!(metadata("production").filename(Some("")), ".env.production");
    assert_eq!(metadata("").filename(Some("")), ".env");
}

#[test]
fn trailing_dots_are_stripped() {
    assert_eq!(metadata("prod.").filename(None), ".env.prod");
    assert_eq!(metadata("...").filename(None), ".env");
}
