use docgen::frontmatter::{extract_frontmatter, infer_type, MatterType};

#[test]
fn test_infer_json() {
    let doc = r###"
        ---
        {
            "title": "JSON Example"
        }
        ---"###;

    assert_eq!(infer_type(&doc), MatterType::JSON);
}

#[test]
fn test_infer_yaml() {
    let doc = r###"---
        title: YAML Front Matter
        ---"###;

    assert_eq!(infer_type(&doc), MatterType::YAML);
}

#[test]
fn test_infer_none() {
    let doc = r###"some article begins right here. nothing to see."###;

    assert_eq!(infer_type(&doc), MatterType::NotFound);
}

#[test]
fn test_extract_matter() {
    let doc = r###"---
title: YAML Front Matter
description: Foo
other: Bar
---"###;

    assert_eq!(
        extract_frontmatter(doc),
        (
            Some(
                r###"title: YAML Front Matter
description: Foo
other: Bar"###
            ),
            ""
        )
    );
}

#[test]
fn test_extract_without_terminator() {
    let doc = "---\ntitle: Open Block";
    assert_eq!(extract_frontmatter(doc), (None, doc));
}

#[test]
fn test_extract_leaves_body() {
    let doc = "---\ntitle: T\n---\nbody text here";
    let (matter, body) = extract_frontmatter(doc);
    assert_eq!(matter, Some("title: T"));
    assert_eq!(body, "\nbody text here");
}

#[test]
fn test_infer_json_requires_brace() {
    let doc = "---\ntitle: plain\n---";
    assert_eq!(infer_type(doc), MatterType::YAML);
}
