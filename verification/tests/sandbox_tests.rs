use rnagent::sandbox::containment_verdict;
use rnagent::sandbox::join_path;
use rnagent::sandbox::parent_of;
use rnagent::sandbox::split_segments;
use rnagent::sandbox::write_plan;

#[test]
fn plan_for_nested_relative_path() {
    let plan = write_plan("/root/proj", "src/app/index.ts").unwrap();
    assert_eq!(plan.target, "/root/proj/src/app/index.ts");
    assert_eq!(plan.parent, "/root/proj/src/app");
    // Without symlinks the created parent canonicalizes to itself and the
    // verdict allows the write.
    assert!(containment_verdict("/root/proj/src/app", "/root/proj"));
}

#[test]
fn plan_for_top_level_file() {
    let plan = write_plan("/root/proj", "a.txt").unwrap();
    assert_eq!(plan.target, "/root/proj/a.txt");
    assert_eq!(plan.parent, "/root/proj");
    assert!(containment_verdict("/root/proj", "/root/proj"));
}

#[test]
fn verdict_refuses_escapes() {
    assert!(!containment_verdict("/etc", "/sandbox/proj"));
    assert!(!containment_verdict("/", "/sandbox"));
    // A sibling whose name merely extends the root's is outside it.
    assert!(!containment_verdict("/sandbox-evil", "/sandbox"));
    assert!(!containment_verdict("/sandboxx/a", "/sandbox"));
}

#[test]
fn verdict_accepts_descendants() {
    assert!(containment_verdict("/sandbox", "/sandbox"));
    assert!(containment_verdict("/sandbox/a", "/sandbox"));
    assert!(containment_verdict("/sandbox/a/b/c", "/sandbox"));
    // Everything is under the filesystem root.
    assert!(containment_verdict("/sandbox", "/"));
}

#[test]
fn absolute_relative_path_replaces_the_root() {
    assert_eq!(join_path("/root/proj", "/etc/passwd"), "/etc/passwd");
    let plan = write_plan("/root/proj", "/etc/passwd").unwrap();
    assert_eq!(plan.target, "/etc/passwd");
    assert_eq!(plan.parent, "/etc");
    assert!(!containment_verdict("/etc", "/root/proj"));
}

#[test]
fn parents() {
    assert_eq!(parent_of("/a/b.txt"), Some("/a".to_string()));
    assert_eq!(parent_of("/x"), Some("/".to_string()));
    assert_eq!(parent_of("/"), None);
    assert_eq!(parent_of(""), None);
    assert_eq!(parent_of("/a/b/"), Some("/a".to_string()));
}

#[test]
fn segments() {
    assert_eq!(
        split_segments("/a/bb/c"),
        vec!["a".to_string(), "bb".to_string(), "c".to_string()]
    );
    assert_eq!(split_segments("//a//"), vec!["a".to_string()]);
    assert_eq!(split_segments("/"), Vec::<String>::new());
    assert_eq!(split_segments(""), Vec::<String>::new());
}
