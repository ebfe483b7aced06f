use cargo_brief::{
    brief, detail_text, dev_only, display_list, display_one, member, row, scopes, summary,
    table_text, DependencyKind, Error, Info, Node, NodeDep, Package, Snapshot,
};

fn pkg(id: &str, name: &str, version: &str, description: Option<&str>) -> Package {
    Package {
        id: id.to_string(),
        name: name.to_string(),
        version: version.to_string(),
        description: description.map(|d| d.to_string()),
        keywords: Vec::new(),
        categories: Vec::new(),
        license: None,
        homepage: None,
        repository: None,
        features: Vec::new(),
    }
}

fn edge(pkg: &str, kinds: &[DependencyKind]) -> NodeDep {
    NodeDep { pkg: pkg.to_string(), dep_kinds: kinds.to_vec() }
}

fn info(pattern: &str, no_dev: bool, recursive: bool) -> Info {
    Info { package: pattern.to_string(), no_dev, recursive }
}

/// One member `app` with a normal dependency `a` and a dev-only dependency `b`.
fn single_member() -> Snapshot {
    Snapshot {
        packages: vec![
            pkg("app 0.1.0", "app", "0.1.0", None),
            pkg("a 1.0.0", "a", "1.0.0", Some("Alpha")),
            pkg("b 2.0.0", "b", "2.0.0", Some("Beta")),
        ],
        nodes: vec![
            Node {
                id: "app 0.1.0".to_string(),
                deps: vec![
                    edge("a 1.0.0", &[DependencyKind::Normal]),
                    edge("b 2.0.0", &[DependencyKind::Development]),
                ],
            },
            Node { id: "a 1.0.0".to_string(), deps: Vec::new() },
            Node { id: "b 2.0.0".to_string(), deps: Vec::new() },
        ],
        workspace_members: vec!["app 0.1.0".to_string()],
        root: Some("app 0.1.0".to_string()),
    }
}

/// Two members, `x` (depending on `a`) and `y` (depending on `a` and `b`),
/// with `x` as the resolution root.
fn two_members(root: Option<&str>) -> Snapshot {
    Snapshot {
        packages: vec![
            pkg("x 0.1.0", "x", "0.1.0", None),
            pkg("y 0.1.0", "y", "0.1.0", None),
            pkg("a 1.0.0", "a", "1.0.0", Some("Alpha")),
            pkg("b 2.0.0", "b", "2.0.0", Some("Beta")),
        ],
        nodes: vec![
            Node { id: "x 0.1.0".to_string(), deps: vec![edge("a 1.0.0", &[DependencyKind::Normal])] },
            Node {
                id: "y 0.1.0".to_string(),
                deps: vec![
                    edge("a 1.0.0", &[DependencyKind::Normal]),
                    edge("b 2.0.0", &[DependencyKind::Build]),
                ],
            },
        ],
        workspace_members: vec!["x 0.1.0".to_string(), "y 0.1.0".to_string()],
        root: root.map(|r| r.to_string()),
    }
}

fn ok(r: Result<String, Error>) -> String {
    match r {
        Ok(s) => s,
        Err(_) => panic!("rendering failed"),
    }
}

fn names(ps: &[&Package]) -> Vec<String> {
    ps.iter().map(|p| p.name.clone()).collect()
}

/// One root `r` whose dependencies have the given names, in order.
fn named_deps(names: &[&str]) -> Snapshot {
    let mut packages = vec![pkg("r", "r", "0.1.0", None)];
    let mut deps = Vec::new();
    for n in names {
        packages.push(pkg(n, n, "1.0.0", None));
        deps.push(edge(n, &[DependencyKind::Normal]));
    }
    Snapshot {
        packages,
        nodes: vec![Node { id: "r".to_string(), deps }],
        workspace_members: vec!["r".to_string()],
        root: Some("r".to_string()),
    }
}

fn matching(pattern: &str, deps: &[&str]) -> Vec<String> {
    let s = named_deps(deps);
    names(&member(&info(pattern, false, false), &s, &"r".to_string()))
}

#[test]
fn wildcard_patterns_match_as_in_a_shell() {
    assert_eq!(matching("lib*", &["libfoo", "lib", "other"]), vec!["libfoo", "lib"]);
    assert_eq!(matching("?b?", &["abc", "abcd", "bb"]), vec!["abc"]);
    assert_eq!(matching("*", &["", "x"]), vec!["", "x"]);
    assert!(matching("Lib*", &["libfoo"]).is_empty());
    assert_eq!(matching("a*c", &["abbbc", "ac", "abcd"]), vec!["abbbc", "ac"]);
    assert_eq!(matching("serde", &["serde", "serde_json"]), vec!["serde"]);
}

#[test]
fn dev_only_needs_exactly_the_development_kind() {
    assert!(dev_only(&edge("p", &[DependencyKind::Development])));
    assert!(!dev_only(&edge("p", &[DependencyKind::Normal, DependencyKind::Development])));
    assert!(!dev_only(&edge("p", &[DependencyKind::Normal])));
    assert!(!dev_only(&edge("p", &[])));
    assert!(dev_only(&edge("p", &[DependencyKind::Development, DependencyKind::Development])));
    assert!(!dev_only(&edge("p", &[DependencyKind::Development, DependencyKind::Build])));
}

#[test]
fn all_dependencies_in_edge_order_with_dev() {
    let s = single_member();
    let root = "app 0.1.0".to_string();
    let ps = member(&info("*", false, false), &s, &root);
    assert_eq!(names(&ps), vec!["a", "b"]);
    let out = ok(brief(&info("*", false, false), &s));
    assert_eq!(out, "a   1.0.0  Alpha\nb   2.0.0  Beta\n");
}

#[test]
fn no_dev_leaves_a_single_match_in_detail() {
    let s = single_member();
    let root = "app 0.1.0".to_string();
    let ps = member(&info("*", true, false), &s, &root);
    assert_eq!(names(&ps), vec!["a"]);
    let out = ok(brief(&info("*", true, false), &s));
    assert_eq!(out, ok(display_one(&s.packages[1])));
    assert_eq!(out.lines().count(), 9);
}

#[test]
fn lib_pattern_selects_lib_names_only() {
    let s = Snapshot {
        packages: vec![
            pkg("r", "r", "0.1.0", None),
            pkg("libfoo 1", "libfoo", "1.0.0", None),
            pkg("libbar 1", "libbar", "1.0.0", None),
            pkg("other 1", "other", "1.0.0", None),
        ],
        nodes: vec![Node {
            id: "r".to_string(),
            deps: vec![
                edge("libfoo 1", &[DependencyKind::Normal]),
                edge("libbar 1", &[DependencyKind::Normal]),
                edge("other 1", &[DependencyKind::Normal]),
            ],
        }],
        workspace_members: vec!["r".to_string()],
        root: Some("r".to_string()),
    };
    let ps = member(&info("lib*", false, false), &s, &"r".to_string());
    assert_eq!(names(&ps), vec!["libfoo", "libbar"]);
}

#[test]
fn leaf_scope_has_no_dependencies() {
    let s = single_member();
    let ps = member(&info("*", false, false), &s, &"a 1.0.0".to_string());
    assert!(ps.is_empty());
    let ps = member(&info("*", false, false), &s, &"missing".to_string());
    assert!(ps.is_empty());
}

#[test]
fn only_the_root_scope_without_recursive() {
    let s = two_members(Some("x 0.1.0"));
    assert_eq!(scopes(&info("*", false, false), &s), vec!["x 0.1.0".to_string()]);
    let out = ok(brief(&info("*", false, false), &s));
    assert_eq!(out, ok(display_one(&s.packages[2])));
}

#[test]
fn every_member_with_recursive() {
    let s = two_members(Some("x 0.1.0"));
    assert_eq!(
        scopes(&info("*", false, true), &s),
        vec!["x 0.1.0".to_string(), "y 0.1.0".to_string()]
    );
    let out = ok(brief(&info("*", false, true), &s));
    assert_eq!(
        out,
        "# x 0.1.0\n\na   1.0.0  Alpha\n\n# y 0.1.0\n\na   1.0.0  Alpha\nb   2.0.0  Beta\n\n"
    );
}

#[test]
fn every_member_when_there_is_no_root() {
    let s = two_members(None);
    assert_eq!(scopes(&info("b", false, false), &s).len(), 2);
    let out = ok(brief(&info("b", false, false), &s));
    assert_eq!(out, "# y 0.1.0\n\nb   2.0.0  Beta\n\n");
}

#[test]
fn wildcard_without_matches_is_no_error() {
    let s = Snapshot {
        packages: vec![pkg("r", "r", "0.1.0", None)],
        nodes: vec![Node { id: "r".to_string(), deps: Vec::new() }],
        workspace_members: vec!["r".to_string()],
        root: Some("r".to_string()),
    };
    assert_eq!(ok(brief(&info("*", false, false), &s)), "");
}

#[test]
fn pattern_without_matches_is_not_found() {
    let s = single_member();
    match brief(&info("zzz*", false, true), &s) {
        Err(Error::NotFound(p)) => assert_eq!(p, "zzz*"),
        _ => panic!("expected a not-found error"),
    }
}

#[test]
fn summary_keeps_the_first_line() {
    assert_eq!(summary(&Some("one line".to_string())), "one line");
    assert_eq!(summary(&Some("first\nsecond".to_string())), "first\u{2026}");
    assert_eq!(summary(&Some("first\r\nsecond".to_string())), "first\u{2026}");
    assert_eq!(summary(&Some("only\n".to_string())), "only");
    assert_eq!(summary(&Some(String::new())), "");
    assert_eq!(summary(&None), "");
}

#[test]
fn table_rows_before_alignment() {
    let a = pkg("a", "a", "1.0.0", Some("Alpha\nmore"));
    let b = pkg("b", "bee", "2.0.0", None);
    let text = table_text(&vec![&a, &b]);
    assert_eq!(text, "a\t1.0.0\tAlpha\u{2026}\nbee\t2.0.0\t\n");
    let out = ok(display_list(&vec![&a, &b]));
    assert_eq!(out, "a    1.0.0  Alpha\u{2026}\nbee  2.0.0  \n");
}

#[test]
fn row_paints_the_key() {
    assert_eq!(row("name", Some(&"x".to_string())), "\u{1b}[32mname\u{1b}[0m\t: x\n");
    assert_eq!(row("license", None), "\u{1b}[32mlicense\u{1b}[0m\t: \n");
}

#[test]
fn detail_has_nine_rows_even_when_fields_are_absent() {
    let mut p = pkg("p", "p", "0.3.0", None);
    p.keywords = vec!["cli".to_string(), "cargo".to_string()];
    p.features = vec!["default".to_string(), "std".to_string()];
    let text = detail_text(&p);
    let labels = [
        "name", "descrip.", "keywords", "categories", "version", "license", "homepage",
        "repository", "features",
    ];
    let lines: Vec<&str> = text.lines().collect();
    assert_eq!(lines.len(), 9);
    for (line, label) in lines.iter().zip(labels.iter()) {
        assert!(line.starts_with(&format!("\u{1b}[32m{label}\u{1b}[0m\t: ")));
    }
    assert!(text.contains("keywords\u{1b}[0m\t: cli, cargo\n"));
    assert!(text.contains("features\u{1b}[0m\t: default, std\n"));
    assert!(text.contains("license\u{1b}[0m\t: \n"));
    let out = ok(display_one(&p));
    assert_eq!(out.lines().count(), 9);
    assert!(!out.contains('\t'));
}

#[test]
fn same_input_gives_the_same_output() {
    let s = two_members(Some("x 0.1.0"));
    let first = ok(brief(&info("*", false, true), &s));
    let second = ok(brief(&info("*", false, true), &s));
    assert_eq!(first, second);
}

#[test]
fn well_formed_requires_known_edges() {
    assert!(single_member().well_formed());
    let mut s = single_member();
    s.nodes[0].deps.push(edge("ghost 0.0.0", &[DependencyKind::Normal]));
    assert!(!s.well_formed());
}


#[test]
fn detail_keeps_a_multi_line_description_on_one_row() {
    let mut p = pkg("p", "p", "1.2.3", Some("First line\nsecond line\nthird"));
    p.license = Some("MIT".to_string());
    let text = detail_text(&p);
    assert_eq!(text.matches('\n').count(), 9);
    assert!(text.contains("descrip.\u{1b}[0m\t: First line\u{2026}\n"));
    let out = ok(display_one(&p));
    assert_eq!(out.lines().count(), 9);
}

#[test]
fn single_member_with_recursive_has_no_header() {
    let s = single_member();
    let out = ok(brief(&info("a", false, true), &s));
    assert_eq!(out, ok(display_one(&s.packages[1])));
    assert!(!out.starts_with('#'));
    let out = ok(brief(&info("*", false, true), &s));
    assert_eq!(out, "a   1.0.0  Alpha\nb   2.0.0  Beta\n");
}
