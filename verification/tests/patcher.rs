use blazon::Args;
use blazon::Boundary;
use blazon::BoundaryMode;
use blazon::LocateError;
use blazon::Patch;
use blazon::PatchError;
use blazon::Side;
use blazon::apply;
use blazon::locate;
use blazon::update_badge_region;

#[test]
fn locate_modes() {
    let doc = "abcMARKdef";
    assert_eq!(locate(doc, "MARK", BoundaryMode::Exclude, Side::Start), Ok(7));
    assert_eq!(locate(doc, "MARK", BoundaryMode::Include, Side::Start), Ok(3));
    assert_eq!(locate(doc, "MARK", BoundaryMode::Exclude, Side::End), Ok(3));
    assert_eq!(locate(doc, "MARK", BoundaryMode::Include, Side::End), Ok(7));
    assert_eq!(
        locate(doc, "ZZZ", BoundaryMode::Exclude, Side::Start),
        Err(LocateError::MarkerNotFound)
    );
}

#[test]
fn locate_first_occurrence_wins() {
    let doc = "aXbXc";
    assert_eq!(locate(doc, "X", BoundaryMode::Include, Side::Start), Ok(1));
}

#[test]
fn locate_counts_characters_not_bytes() {
    let doc = "\u{e4}\u{f6}\u{fc}MARK\u{e9}";
    assert_eq!(locate(doc, "MARK", BoundaryMode::Include, Side::Start), Ok(3));
}

#[test]
fn apply_exclude_keeps_markers() {
    let start = Boundary {
        marker: "<A>".to_string(),
        mode: BoundaryMode::Exclude,
    };
    let end = Boundary {
        marker: "</A>".to_string(),
        mode: BoundaryMode::Exclude,
    };
    let out = apply("x<A>old</A>y", &start, &end, "new").unwrap();
    assert_eq!(out, "x<A>new</A>y");
}

#[test]
fn apply_include_replaces_markers() {
    let start = Boundary {
        marker: "<A>".to_string(),
        mode: BoundaryMode::Include,
    };
    let end = Boundary {
        marker: "</A>".to_string(),
        mode: BoundaryMode::Include,
    };
    let out = apply("x<A>old</A>y", &start, &end, "new").unwrap();
    assert_eq!(out, "xnewy");
}

#[test]
fn apply_missing_end_marker() {
    let start = Boundary {
        marker: "<A>".to_string(),
        mode: BoundaryMode::Exclude,
    };
    let end = Boundary {
        marker: "</A>".to_string(),
        mode: BoundaryMode::Exclude,
    };
    assert_eq!(
        apply("x<A>old", &start, &end, "new"),
        Err(PatchError::BoundaryNotFound { which: Side::End })
    );
}

#[test]
fn apply_missing_start_marker() {
    let start = Boundary {
        marker: "<A>".to_string(),
        mode: BoundaryMode::Exclude,
    };
    let end = Boundary {
        marker: "</A>".to_string(),
        mode: BoundaryMode::Exclude,
    };
    assert_eq!(
        apply("old</A>y", &start, &end, "new"),
        Err(PatchError::BoundaryNotFound { which: Side::Start })
    );
}

#[test]
fn apply_inverted_markers() {
    let start = Boundary {
        marker: "<A>".to_string(),
        mode: BoundaryMode::Exclude,
    };
    let end = Boundary {
        marker: "</A>".to_string(),
        mode: BoundaryMode::Exclude,
    };
    assert_eq!(
        apply("x</A>mid<A>y", &start, &end, "new"),
        Err(PatchError::InvertedRegion)
    );
}

#[test]
fn apply_round_trip() {
    let start = Boundary {
        marker: "<A>".to_string(),
        mode: BoundaryMode::Exclude,
    };
    let end = Boundary {
        marker: "</A>".to_string(),
        mode: BoundaryMode::Exclude,
    };
    let out = apply("header<A>stale</A>footer", &start, &end, "REPL").unwrap();
    let s = out.find("<A>").unwrap() + "<A>".len();
    let e = out.find("</A>").unwrap();
    assert_eq!(&out[s..e], "REPL");
}

#[test]
fn apply_is_idempotent() {
    let start = Boundary {
        marker: "<A>".to_string(),
        mode: BoundaryMode::Exclude,
    };
    let end = Boundary {
        marker: "</A>".to_string(),
        mode: BoundaryMode::Exclude,
    };
    let once = apply("header<A>stale</A>footer", &start, &end, "fresh").unwrap();
    let twice = apply(&once, &start, &end, "fresh").unwrap();
    assert_eq!(once, twice);
}

#[test]
fn patch_apply_to_string() {
    let patch = Patch {
        start: Boundary {
            marker: "<A>".to_string(),
            mode: BoundaryMode::Exclude,
        },
        end: Boundary {
            marker: "</A>".to_string(),
            mode: BoundaryMode::Exclude,
        },
        replacement: "new".to_string(),
    };
    assert_eq!(patch.apply_to_string("x<A>a</A>y").unwrap(), "x<A>new</A>y");
}

#[test]
fn update_badge_region_scenario() {
    let doc = "# Title\n\n<!-- auto-generated badges -->\nold\n<!-- /auto-generated badges -->\n\nFooter.\n";
    let out = update_badge_region(doc, "\n[badge]\n").unwrap();
    assert_eq!(
        out,
        "# Title\n\n<!-- auto-generated badges -->\n\n[badge]\n\n<!-- /auto-generated badges -->\n\nFooter.\n"
    );
}

#[test]
fn update_badge_region_replaces_old_content() {
    let content = "# My Project\n\n<!-- auto-generated badges -->\nold badge content here\n<!-- /auto-generated badges -->\n\nSome other content.\n";
    let new_badges = "[![test](https://example.com)](https://example.com)";
    let updated = update_badge_region(content, new_badges).unwrap();
    assert!(updated.contains("# My Project"));
    assert!(updated.contains("Some other content."));
    assert!(updated.contains(new_badges));
    assert!(!updated.contains("old badge content here"));
    assert!(updated.contains("<!-- auto-generated badges -->"));
    assert!(updated.contains("<!-- /auto-generated badges -->"));
}

#[test]
fn update_badge_region_missing_markers() {
    assert_eq!(
        update_badge_region("# No markers here\n", "X"),
        Err(PatchError::BoundaryNotFound { which: Side::Start })
    );
}

#[test]
fn args_defaults() {
    let a = Args::default();
    assert_eq!(a.readme, "README.md");
    assert!(a.crate_name.is_none());
    assert!(a.binary.is_none());
    assert!(!a.no_build);
    assert!(!a.verbose);
    assert!(!a.help);
}
