use myspace::engine::target_parser::{parse_target, resolve, ResolvedRepo, TargetError, Part};
use myspace::models::config::GlobalConfig;
use myspace::models::target::ParsedTarget;

fn get_test_config() -> GlobalConfig {
    let mut config = GlobalConfig::new("github.com".to_string(), "zogger-dev".to_string());
    config.add_alias("gh".to_string(), "github.com".to_string());
    config.add_alias("bb".to_string(), "bitbucket.org".to_string());
    config.add_alias("legacy".to_string(), "git@bitbucket.org".to_string());
    config
}

fn parsed(s: &str) -> ParsedTarget {
    parse_target(s).unwrap()
}

#[test]
fn test_parse_bare() {
    assert_eq!(
        parsed("mytool"),
        ParsedTarget {
            host: None,
            org: None,
            repo: "mytool".to_string(),
            git_ref: None
        }
    );
}

#[test]
fn test_parse_bazel_shorts() {
    assert_eq!(
        parsed("//gh/apache:impala"),
        ParsedTarget {
            host: Some("gh".to_string()),
            org: Some("apache".to_string()),
            repo: "impala".to_string(),
            git_ref: None
        }
    );
    assert_eq!(
        parsed("//gh:mytool"),
        ParsedTarget {
            host: Some("gh".to_string()),
            org: None,
            repo: "mytool".to_string(),
            git_ref: None
        }
    );
    // Literal hosts work in the host slot too.
    assert_eq!(
        parsed("//ghe.example.com/team:tool").host.as_deref(),
        Some("ghe.example.com")
    );
}

#[test]
fn test_parse_raw_url() {
    let t = parsed("git@github.com:apache/impala.git");
    assert_eq!(t.host.as_deref(), Some("github.com"));
    assert_eq!(t.org.as_deref(), Some("apache"));
    assert_eq!(t.repo, "impala");
    // .git suffix is optional.
    assert_eq!(parsed("git@github.com:apache/impala").repo, "impala");
}

#[test]
fn test_parse_ref_suffix() {
    assert_eq!(parsed("mytool@v1.2.3").git_ref.as_deref(), Some("v1.2.3"));
    assert_eq!(
        parsed("//gh/apache:impala@abc123").git_ref.as_deref(),
        Some("abc123")
    );
    assert_eq!(
        parsed("git@github.com:apache/impala.git@v2")
            .git_ref
            .as_deref(),
        Some("v2")
    );
    // Branch-like refs may contain slashes.
    assert_eq!(
        parsed("mytool@releases/v2").git_ref.as_deref(),
        Some("releases/v2")
    );
}

#[test]
fn test_parse_rejects_invalid() {
    assert!(parse_target("").is_err());
    assert!(parse_target("..").is_err());
    assert!(parse_target(".").is_err());
    assert!(parse_target("apache/impala").is_err()); // old slash form
    assert!(parse_target("../repo").is_err());
    assert!(parse_target("//gh/a/b:repo").is_err());
    assert!(parse_target("//gh/apache").is_err()); // missing :repo
    assert!(parse_target("//gh:..").is_err());
    assert!(parse_target("//gh/..:repo").is_err());
    assert!(parse_target("git@github.com:impala.git").is_err()); // no org
    assert!(parse_target("re po").is_err());
    assert!(parse_target("repo@").is_err());
    assert!(parse_target("@v1").is_err());
    assert!(parse_target("repo@-bad").is_err());
}

#[test]
fn test_resolve_defaults() {
    let config = get_test_config();
    let resolved = resolve(&parsed("mytool"), &config).unwrap();
    assert_eq!(resolved.url, "git@github.com:zogger-dev/mytool.git");
    assert_eq!(resolved.identity(), "github.com/zogger-dev/mytool");
}

#[test]
fn test_resolve_alias_short() {
    let config = get_test_config();
    let resolved = resolve(&parsed("//bb/team:tool"), &config).unwrap();
    assert_eq!(resolved.url, "git@bitbucket.org:team/tool.git");
    assert_eq!(resolved.host, "bitbucket.org");

    // Alias with default org.
    let resolved = resolve(&parsed("//bb:tool"), &config).unwrap();
    assert_eq!(resolved.url, "git@bitbucket.org:zogger-dev/tool.git");
}

#[test]
fn test_resolve_literal_host_short() {
    let config = get_test_config();
    let resolved = resolve(&parsed("//ghe.example.com/team:tool"), &config).unwrap();
    assert_eq!(resolved.url, "git@ghe.example.com:team/tool.git");
}

#[test]
fn test_resolve_raw_url_roundtrip() {
    let config = get_test_config();
    let resolved = resolve(&parsed("git@github.com:apache/impala.git"), &config).unwrap();
    assert_eq!(resolved.url, "git@github.com:apache/impala.git");
    assert_eq!(resolved.identity(), "github.com/apache/impala");
}

#[test]
fn test_resolve_unknown_alias() {
    let config = get_test_config();
    let err = resolve(&parsed("//nope/team:tool"), &config).unwrap_err();
    assert!(err.message().contains("alias"), "{}", err.message());
}

#[test]
fn test_resolve_rejects_transport_style_alias_value() {
    let config = get_test_config();
    let err = resolve(&parsed("//legacy/team:tool"), &config).unwrap_err();
    assert!(err.message().contains("bare hostnames"), "{}", err.message());
}

#[test]
fn test_resolve_carries_ref() {
    let config = get_test_config();
    let resolved = resolve(&parsed("mytool@v1.2.3"), &config).unwrap();
    assert_eq!(resolved.git_ref.as_deref(), Some("v1.2.3"));
    // The ref never leaks into url or identity.
    assert_eq!(resolved.url, "git@github.com:zogger-dev/mytool.git");
    assert_eq!(resolved.identity(), "github.com/zogger-dev/mytool");
}

#[test]
fn test_cache_path_is_identity() {
    let config = get_test_config();
    let resolved = resolve(&parsed("//gh/apache:impala"), &config).unwrap();
    assert_eq!(resolved.cache_path("/cache"), "/cache/github.com/apache/impala");
}

// ---- further cases ----

#[test]
fn parse_errors_name_the_failing_part() {
    assert_eq!(
        parse_target("//gh:..").unwrap_err(),
        TargetError::InvalidComponent(Part::Repo, "..".to_string())
    );
    assert_eq!(
        parse_target("//gh/..:repo").unwrap_err(),
        TargetError::InvalidComponent(Part::Org, "..".to_string())
    );
    assert_eq!(
        parse_target("//g h:repo").unwrap_err(),
        TargetError::InvalidComponent(Part::Host, "g h".to_string())
    );
    assert_eq!(
        parse_target("//gh/apache").unwrap_err(),
        TargetError::MalformedShort("//gh/apache".to_string())
    );
    assert_eq!(
        parse_target("//gh/a/b:repo").unwrap_err(),
        TargetError::MalformedShort("//gh/a/b:repo".to_string())
    );
    assert_eq!(
        parse_target("git@github.com:impala.git").unwrap_err(),
        TargetError::MalformedUrl("git@github.com:impala.git".to_string())
    );
    assert_eq!(
        parse_target("apache/impala").unwrap_err(),
        TargetError::MalformedBare("apache/impala".to_string())
    );
    assert_eq!(
        parse_target("repo@-bad").unwrap_err(),
        TargetError::InvalidRef("-bad".to_string())
    );
    assert_eq!(parse_target("repo@").unwrap_err(), TargetError::InvalidRef("".to_string()));
}

#[test]
fn parse_rejects_control_and_unicode_whitespace() {
    assert!(parse_target("re\u{7}po").is_err());
    assert!(parse_target("re\u{a0}po").is_err());
    assert!(parse_target("re\u{3000}po").is_err());
    assert!(parse_target("re\\po").is_err());
    // Non-ASCII letters are fine.
    assert_eq!(parsed("répo").repo, "répo");
}

#[test]
fn parse_url_without_user_and_ref_with_at_sign() {
    let t = parsed("github.com:apache/impala");
    assert_eq!(t.host.as_deref(), Some("github.com"));
    // The last `@` separates the ref, so an earlier one stays in the path,
    // where it is refused.
    assert!(parse_target("git@github.com:apache/impala.git@v@2").is_err());
    let t = parsed("git@github.com:apache/impala.git@v2");
    assert_eq!(t.git_ref.as_deref(), Some("v2"));
}

#[test]
fn display_string_roundtrips_through_parse() {
    for s in ["mytool", "mytool@v1.2.3", "//gh:mytool", "//gh/apache:impala@releases/v2"] {
        let t = parsed(s);
        assert_eq!(t.display_string(), s);
        assert_eq!(parsed(&t.display_string()), t);
    }
    let t = parsed("git@github.com:apache/impala.git@v2");
    assert_eq!(t.display_string(), "//github.com/apache:impala@v2");
    assert_eq!(parsed(&t.display_string()), t);
}

#[test]
fn resolve_errors() {
    let config = get_test_config();
    assert_eq!(
        resolve(&parsed("//nope/team:tool"), &config).unwrap_err(),
        TargetError::UnknownAlias("nope".to_string())
    );
    assert_eq!(
        resolve(&parsed("//legacy/team:tool"), &config).unwrap_err(),
        TargetError::TransportHost("git@bitbucket.org".to_string())
    );
    let mut config = get_test_config();
    config.add_alias("loc".to_string(), "localhost".to_string());
    let err = resolve(&parsed("//loc:tool"), &config).unwrap_err();
    assert_eq!(err, TargetError::HostWithoutDot("localhost".to_string()));
    assert_eq!(err.message(), "'localhost' is not a valid host (no dot)");
    let bad_org = GlobalConfig::new("github.com".to_string(), "bad org".to_string());
    assert_eq!(
        resolve(&parsed("tool"), &bad_org).unwrap_err(),
        TargetError::InvalidComponent(Part::Org, "bad org".to_string())
    );
}

#[test]
fn error_messages() {
    assert_eq!(
        TargetError::InvalidComponent(Part::Repo, "..".to_string()).message(),
        "Invalid repo '..' in target"
    );
    assert_eq!(
        TargetError::UnknownAlias("nope".to_string()).message(),
        "'nope' has no dot, so it is treated as an alias \u{2014} but no alias 'nope' is configured"
    );
    assert_eq!(
        TargetError::MalformedShort("//x".to_string()).message(),
        "Invalid target '//x'. Expected //hostish:repo or //hostish/org:repo"
    );
}

#[test]
fn cache_path_joins_like_paths() {
    let r = ResolvedRepo {
        url: String::new(),
        host: "h.io".to_string(),
        org: "o".to_string(),
        repo: "r".to_string(),
        git_ref: None,
    };
    assert_eq!(r.cache_path("/cache/"), "/cache/h.io/o/r");
    assert_eq!(r.cache_path(""), "h.io/o/r");
    assert_eq!(r.identity(), "h.io/o/r");
}
