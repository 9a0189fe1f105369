use greeter::pattern::{split_path, PathPattern, Segment};

fn names(p: &PathPattern) -> Vec<String> {
    p.segments()
        .iter()
        .map(|s| match s {
            Segment::Literal(t) => format!("lit:{}", t),
            Segment::Param(n) => format!("param:{}", n),
        })
        .collect()
}

#[test]
fn split_root_has_no_segments() {
    assert!(split_path("/").is_empty());
    assert!(split_path("").is_empty());
}

#[test]
fn split_keeps_empty_segments() {
    assert_eq!(split_path("/x/y"), vec!["x".to_string(), "y".to_string()]);
    assert_eq!(split_path("/a//b"), vec!["a".to_string(), String::new(), "b".to_string()]);
    assert_eq!(split_path("/a/"), vec!["a".to_string(), String::new()]);
    assert_eq!(split_path("//"), vec![String::new(), String::new()]);
}

#[test]
fn split_handles_multibyte_text() {
    assert_eq!(split_path("/café/ü"), vec!["café".to_string(), "ü".to_string()]);
}

#[test]
fn parse_root_template() {
    let p = PathPattern::parse("/").unwrap();
    assert!(p.segments().is_empty());
}

#[test]
fn parse_param_template() {
    let p = PathPattern::parse("/{name}").unwrap();
    assert_eq!(names(&p), vec!["param:name"]);
}

#[test]
fn parse_mixed_template() {
    let p = PathPattern::parse("/users/{id}/posts").unwrap();
    assert_eq!(names(&p), vec!["lit:users", "param:id", "lit:posts"]);
}

#[test]
fn parse_rejects_empty_segment() {
    assert!(PathPattern::parse("//").is_err());
    assert!(PathPattern::parse("/a//b").is_err());
    assert!(PathPattern::parse("/a/").is_err());
}

#[test]
fn parse_rejects_malformed_param() {
    assert!(PathPattern::parse("/{name").is_err());
    assert!(PathPattern::parse("/name}").is_err());
    assert!(PathPattern::parse("/{}").is_err());
    assert!(PathPattern::parse("/a{b}").is_err());
    assert!(PathPattern::parse("/{a{b}}").is_err());
}

#[test]
fn parse_rejects_duplicate_param() {
    assert!(PathPattern::parse("/{a}/{a}").is_err());
    assert!(PathPattern::parse("/{a}/x/{a}").is_err());
    assert!(PathPattern::parse("/{a}/{b}").is_ok());
}
