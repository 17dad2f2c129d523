use pllr::manifest::{Item, Manifest};
use pllr::path::{file_name_of, join_path, locate};
use pllr::plan::{plan, Anchor, Place, Stage, Step};
use pllr::policy::{command_verdict, decide_copy, CopyAction, EntryKind, Failure};
use pllr::walk::Workspaces;

fn b(s: &str) -> Vec<u8> {
    s.as_bytes().to_vec()
}

fn item(get: &str, assets: &[&str]) -> Item {
    Item {
        get: get.to_string(),
        build: None,
        assets: assets.iter().map(|a| b(a)).collect(),
        overwrite: None,
        source: None,
        dest: None,
        children: None,
    }
}

fn parts_of(p: &Place) -> Vec<String> {
    p.parts.iter().map(|v| String::from_utf8(v.clone()).unwrap()).collect()
}

fn copies(steps: &[Step]) -> Vec<(&Place, &Place, &Place, bool)> {
    steps
        .iter()
        .filter_map(|s| match s {
            Step::Copy { from, into, target, overwrite, .. } => Some((from, into, target, *overwrite)),
            _ => None,
        })
        .collect()
}

fn resolved(w: &Workspaces, p: &Place) -> String {
    String::from_utf8(w.resolve(p).unwrap()).unwrap()
}

#[test]
fn single_item_places_assets_in_root() {
    let m = Manifest { items: vec![item("echo hi > foo.txt", &["foo.txt"])] };
    let steps = plan(&m);
    assert_eq!(steps.len(), 5);
    assert!(matches!(steps[0], Step::Open));
    assert!(matches!(&steps[2], Step::EnsureDir { dir } if dir.anchor == Anchor::Root && dir.parts.is_empty()));
    assert!(matches!(steps[4], Step::Close));
    let c = copies(&steps);
    assert_eq!(c.len(), 1);
    let (from, into, target, overwrite) = c[0];
    assert_eq!(from.anchor, Anchor::Workspace);
    assert_eq!(parts_of(from), vec!["foo.txt"]);
    assert_eq!(into.anchor, Anchor::Root);
    assert!(into.parts.is_empty());
    assert!(!overwrite);
    let mut w = Workspaces::new(b("/r"));
    w.enter(b("/tmp/ws1"));
    assert_eq!(resolved(&w, target), "/r/foo.txt");
    assert_eq!(resolved(&w, into), "/r");
    assert_eq!(resolved(&w, from), "/tmp/ws1/foo.txt");
}

#[test]
fn dest_subdirectory_receives_asset() {
    let mut it = item("true", &["foo.txt"]);
    it.dest = Some(b("out"));
    let steps = plan(&Manifest { items: vec![it] });
    let w = Workspaces::new(b("/root/proj"));
    match &steps[2] {
        Step::EnsureDir { dir } => assert_eq!(resolved(&w, dir), "/root/proj/out"),
        other => panic!("unexpected step {:?}", other),
    }
    let c = copies(&steps);
    assert_eq!(resolved(&w, c[0].2), "/root/proj/out/foo.txt");
}

#[test]
fn source_subdirectory_holds_build_output() {
    let mut it = item("true", &["x.bin"]);
    it.source = Some(b("built"));
    it.build = Some("mkdir -p built && touch built/x.bin".to_string());
    let steps = plan(&Manifest { items: vec![it] });
    assert_eq!(steps.len(), 6);
    let mut w = Workspaces::new(b("/r"));
    w.enter(b("/tmp/ws"));
    match &steps[2] {
        Step::Run { stage, command, dir } => {
            assert_eq!(*stage, Stage::Build);
            assert_eq!(command, "mkdir -p built && touch built/x.bin");
            assert_eq!(resolved(&w, dir), "/tmp/ws/built");
        }
        other => panic!("unexpected step {:?}", other),
    }
    let c = copies(&steps);
    assert_eq!(resolved(&w, c[0].0), "/tmp/ws/built/x.bin");
    assert_eq!(resolved(&w, c[0].2), "/r/x.bin");
}

#[test]
fn overwrite_absent_skips_existing_target() {
    assert_eq!(decide_copy(true, false, EntryKind::File), CopyAction::Skip);
    assert_eq!(decide_copy(true, false, EntryKind::Directory), CopyAction::Skip);
    assert_eq!(decide_copy(false, false, EntryKind::File), CopyAction::CopyFile);
    assert_eq!(decide_copy(false, false, EntryKind::Directory), CopyAction::CopyTree);
    assert_eq!(decide_copy(false, false, EntryKind::Other), CopyAction::Nothing);
}

#[test]
fn overwrite_present_even_false_replaces() {
    let mut it = item("true", &["a.txt"]);
    it.overwrite = Some(false);
    assert!(it.overwrite_enabled());
    let steps = plan(&Manifest { items: vec![it] });
    let c = copies(&steps);
    assert!(c[0].3);
    assert_eq!(decide_copy(true, c[0].3, EntryKind::File), CopyAction::CopyFile);
    assert_eq!(decide_copy(true, c[0].3, EntryKind::Directory), CopyAction::CopyTree);
    let mut on = item("true", &["a.txt"]);
    on.overwrite = Some(true);
    assert!(copies(&plan(&Manifest { items: vec![on] }))[0].3);
    assert!(!item("true", &[]).overwrite_enabled());
}

#[test]
fn children_inherit_parent_destination() {
    let mut child = item("true", &["c.txt"]);
    child.dest = Some(b("b"));
    let mut parent = item("true", &["p.txt"]);
    parent.dest = Some(b("a"));
    parent.children = Some(vec![child]);
    let steps = plan(&Manifest { items: vec![parent] });
    let opens = steps.iter().filter(|s| matches!(s, Step::Open)).count();
    let closes = steps.iter().filter(|s| matches!(s, Step::Close)).count();
    assert_eq!((opens, closes), (2, 2));
    let w = Workspaces::new(b("/r"));
    let c = copies(&steps);
    assert_eq!(c.len(), 2);
    assert_eq!(resolved(&w, c[0].2), "/r/a/p.txt");
    assert_eq!(resolved(&w, c[1].2), "/r/a/b/c.txt");
    assert!(matches!(steps[steps.len() - 1], Step::Close));
    assert!(matches!(steps[steps.len() - 2], Step::Close));
}

#[test]
fn failed_fetch_comes_before_any_placement() {
    let mut it = item("exit 3", &["f"]);
    it.dest = Some(b("d"));
    let steps = plan(&Manifest { items: vec![it] });
    match &steps[1] {
        Step::Run { stage, command, dir } => {
            assert_eq!(*stage, Stage::Get);
            assert_eq!(command, "exit 3");
            assert_eq!(dir.anchor, Anchor::Workspace);
            assert!(dir.parts.is_empty());
        }
        other => panic!("unexpected step {:?}", other),
    }
    assert!(!matches!(steps[0], Step::EnsureDir { .. } | Step::Copy { .. }));
    assert_eq!(command_verdict(Stage::Get, false), Err(Failure::Command(Stage::Get)));
    assert_eq!(command_verdict(Stage::Build, false), Err(Failure::Command(Stage::Build)));
    assert_eq!(command_verdict(Stage::Get, true), Ok(()));
}

#[test]
fn siblings_follow_declared_order() {
    let m = Manifest { items: vec![item("one", &["x", "y"]), item("two", &["z"])] };
    let steps = plan(&m);
    assert_eq!(steps.len(), 11);
    let gets: Vec<&String> = steps
        .iter()
        .filter_map(|s| match s {
            Step::Run { command, .. } => Some(command),
            _ => None,
        })
        .collect();
    assert_eq!(gets, vec!["one", "two"]);
    let names: Vec<Vec<String>> = copies(&steps).iter().map(|c| parts_of(c.2)).collect();
    assert_eq!(names, vec![vec!["x"], vec!["y"], vec!["z"]]);
}

#[test]
fn asset_without_file_name_is_rejected() {
    let steps = plan(&Manifest { items: vec![item("true", &["..", "ok/name"])] });
    assert!(matches!(&steps[3], Step::BadAsset { asset } if asset == b".."));
    let c = copies(&steps);
    assert_eq!(parts_of(c[0].0), vec!["ok/name"]);
    assert_eq!(parts_of(c[0].2), vec!["name"]);
}

#[test]
fn empty_manifest_plans_nothing() {
    assert!(plan(&Manifest { items: vec![] }).is_empty());
}

#[test]
fn join_follows_platform_rules() {
    assert_eq!(join_path(&b("a"), &b("b")), b("a/b"));
    assert_eq!(join_path(&b("a/"), &b("b")), b("a/b"));
    assert_eq!(join_path(&b(""), &b("b")), b("b"));
    assert_eq!(join_path(&b("a"), &b("/abs")), b("/abs"));
    assert_eq!(join_path(&b("a"), &b("")), b("a/"));
}

#[test]
fn file_name_takes_last_component() {
    let f = |s: &str| file_name_of(&b(s)).map(|v| String::from_utf8(v).unwrap());
    assert_eq!(f("foo.txt"), Some("foo.txt".to_string()));
    assert_eq!(f("dir/sub/foo.txt"), Some("foo.txt".to_string()));
    assert_eq!(f("dir/sub/"), Some("sub".to_string()));
    assert_eq!(f("dir/sub/."), Some("sub".to_string()));
    assert_eq!(f("/abs//x"), Some("x".to_string()));
    assert_eq!(f("a/.hidden"), Some(".hidden".to_string()));
    assert_eq!(f(".."), None);
    assert_eq!(f("a/.."), None);
    assert_eq!(f("."), None);
    assert_eq!(f("/"), None);
    assert_eq!(f(""), None);
}

#[test]
fn locate_joins_each_part() {
    assert_eq!(locate(&b("/r"), &vec![b("a"), b("b"), b("c.txt")]), Some(b("/r/a/b/c.txt")));
    assert_eq!(locate(&b("/r"), &vec![]), Some(b("/r")));
    assert_eq!(locate(&b("/r"), &vec![b("a"), b("/abs"), b("x")]), Some(b("/abs/x")));
}

#[test]
fn workspace_stack_resolves_innermost() {
    let mut w = Workspaces::new(b("/r"));
    let p = Place { anchor: Anchor::Workspace, parts: vec![b("f")] };
    assert_eq!(w.resolve(&p), Err(Failure::Workspace));
    w.enter(b("/t/one"));
    w.enter(b("/t/two"));
    assert_eq!(resolved(&w, &p), "/t/two/f");
    assert_eq!(w.leave(), Some(b("/t/two")));
    assert_eq!(resolved(&w, &p), "/t/one/f");
    assert_eq!(w.leave(), Some(b("/t/one")));
    assert_eq!(w.leave(), None);
}

#[test]
fn plan_keeps_workspaces_nested() {
    let mut grandchild = item("g", &["g.txt"]);
    grandchild.source = Some(b("s"));
    let mut child = item("c", &["c.txt"]);
    child.children = Some(vec![grandchild]);
    child.build = Some("make".to_string());
    let mut parent = item("p", &["p.txt"]);
    parent.children = Some(vec![child, item("c2", &[])]);
    let steps = plan(&Manifest { items: vec![parent, item("q", &["q.txt"])] });
    let mut w = Workspaces::new(b("/r"));
    let mut count = 0;
    let mut most = 0;
    for (n, step) in steps.iter().enumerate() {
        match step {
            Step::Open => {
                count += 1;
                most = most.max(count);
                w.enter(format!("/tmp/ws{}", n).into_bytes());
            }
            Step::Close => {
                assert!(w.leave().is_some());
                count -= 1;
            }
            Step::Run { dir, .. } | Step::EnsureDir { dir } => assert!(w.resolve(dir).is_ok()),
            Step::Copy { from, into, target, .. } => {
                assert!(w.resolve(from).is_ok());
                assert!(w.resolve(into).is_ok());
                assert!(w.resolve(target).is_ok());
            }
            Step::BadAsset { .. } => panic!("every asset here names a file"),
        }
    }
    assert_eq!(count, 0);
    assert_eq!(most, 3);
    assert_eq!(w.leave(), None);
}
