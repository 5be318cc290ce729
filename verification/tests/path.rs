use deepcopy::fsattr::Platform;
use deepcopy::path::{Component, PathBuf, Piece};

fn name(s: &str) -> Component {
    Component::Normal(s.as_bytes().to_vec())
}

fn drive(s: &str) -> Component {
    Component::Prefix(s.as_bytes().to_vec())
}

fn path(components: &[Component]) -> PathBuf {
    PathBuf::from_components(&components.to_vec(), Platform::Other)
}

fn windows(components: &[Component]) -> PathBuf {
    PathBuf::from_components(&components.to_vec(), Platform::Windows)
}

/// A path with what stands before each component, and behind the last.
fn written(platform: Platform, pieces: &[(&str, Component)], after: &str) -> PathBuf {
    let pieces: Vec<Piece> = pieces
        .iter()
        .map(|(gap, c)| Piece { gap: gap.as_bytes().to_vec(), component: c.clone() })
        .collect();
    PathBuf::written(&pieces, &after.as_bytes().to_vec(), platform)
}

#[test]
fn joining_appends_or_replaces() {
    let base = windows(&[drive("C:"), Component::RootDir, name("a")]);
    let show = |rel: &[Component]| base.join(&windows(rel)).display();
    assert_eq!(base.join(&windows(&[])), base);
    assert_eq!(show(&[name("b")]), "C:\\a\\b");
    assert_eq!(show(&[Component::RootDir, name("b")]), "C:\\b");
    assert_eq!(show(&[drive("D:"), name("b")]), "D:b");
    assert_eq!(show(&[Component::ParentDir]), "C:\\a\\..");
    assert_eq!(
        base.join(&windows(&[Component::CurDir, name("b")])),
        windows(&[drive("C:"), Component::RootDir, name("a"), name("b")])
    );
    assert_eq!(path(&[]).join(&path(&[Component::CurDir, name("b")])).display(), "./b");
    assert_eq!(windows(&[drive("C:")]).join(&windows(&[name("b")])).display(), "C:b");
}

#[test]
fn paths_are_shown_as_they_were_written() {
    let base = written(Platform::Other, &[("", name("a")), ("//", name("b")), ("/./", name("c"))], "/");
    assert_eq!(base, path(&[name("a"), name("b"), name("c")]));
    assert_eq!(base.display(), "a//b/./c/");
    assert_eq!(base.text(), b"a//b/./c/");
    assert_eq!(base.join(&path(&[name("d")])).display(), "a//b/./c/d");
    assert_eq!(base.parent().unwrap().display(), "a//b");
    assert_eq!(base.strip_prefix(&path(&[name("a")])).unwrap().display(), "b/./c");
    assert_eq!(base.strip_prefix(&path(&[])).unwrap().display(), "a//b/./c");
    assert_eq!(base.strip_prefix(&base).unwrap().display(), "");

    let slashes = written(
        Platform::Windows,
        &[("", drive("c:")), ("/", Component::RootDir), ("", name("a")), ("/", name("b"))],
        "",
    );
    assert_eq!(slashes.display(), "c:/a/b");
    assert_eq!(slashes.join(&windows(&[name("d")])).display(), "c:/a/b\\d");
    assert_eq!(
        slashes.strip_prefix(&windows(&[drive("C:"), Component::RootDir])).unwrap().display(),
        "a/b"
    );
}

#[test]
fn joining_writes_behind_the_base() {
    let a = path(&[name("a")]);
    assert_eq!(a.join(&path(&[])).display(), "a/");
    assert_eq!(a.join(&path(&[])).join(&path(&[name("b")])).display(), "a/b");
    assert_eq!(a.join(&path(&[Component::CurDir, name("b")])).display(), "a/./b");
    assert_eq!(a.join(&path(&[Component::CurDir])).display(), "a/.");
    assert_eq!(a.join(&path(&[Component::CurDir])), a);
    assert_eq!(path(&[Component::RootDir]).join(&a).display(), "/a");
    // A share is absolute without saying so, until something stands behind it.
    let share = written(
        Platform::Windows,
        &[("", drive("\\\\server\\share")), ("", Component::RootDir)],
        "",
    );
    let below = share.join(&windows(&[name("a")]));
    assert_eq!(below.display(), "\\\\server\\share\\a");
    assert_eq!(below.parent().unwrap().display(), "\\\\server\\share\\");
    // Only Windows takes a backslash for a separator.
    let odd = path(&[name("a\\")]);
    assert_eq!(odd.join(&path(&[name("b")])).display(), "a\\/b");
}

#[test]
fn stripping_undoes_joining() {
    let base = path(&[Component::RootDir, name("src")]);
    let rel = path(&[name("nested"), name("a.txt")]);
    let whole = base.join(&rel);
    assert_eq!(whole.strip_prefix(&base), Some(rel));
    assert_eq!(base.join(&whole.strip_prefix(&base).unwrap()), whole);
    assert_eq!(base.strip_prefix(&whole), None);
    assert_eq!(whole.strip_prefix(&path(&[Component::RootDir, name("sr")])), None);
    assert_eq!(whole.strip_prefix(&whole), Some(path(&[])));
}

#[test]
fn stripping_undoes_joining_of_paths_that_climb() {
    let base = path(&[Component::RootDir, name("src")]);
    let rel = path(&[Component::ParentDir, name("a.txt")]);
    assert_eq!(base.join(&rel).strip_prefix(&base), Some(rel));
}

#[test]
fn the_parent_ends_at_the_root() {
    let root = path(&[Component::RootDir]);
    let file = path(&[Component::RootDir, name("a"), name("b")]);
    assert_eq!(file.parent(), Some(path(&[Component::RootDir, name("a")])));
    assert_eq!(file.parent().unwrap().parent(), Some(path(&[Component::RootDir])));
    assert_eq!(root.parent(), None);
    assert_eq!(path(&[name("a")]).parent(), Some(path(&[])));
    assert_eq!(path(&[]).parent(), None);
    assert_eq!(windows(&[drive("C:")]).parent(), None);
}

#[test]
fn the_parent_of_a_joined_file_is_the_joined_directory() {
    let base = path(&[Component::RootDir, name("dst")]);
    let dir = path(&[name("x"), name("y")]);
    let file = dir.join(&path(&[name("a.txt")]));
    assert_eq!(base.join(&file).parent(), Some(base.join(&dir)));
}

#[test]
fn the_case_of_a_drive_does_not_matter() {
    let upper = windows(&[drive("C:"), Component::RootDir, name("a")]);
    let lower = windows(&[drive("c:"), Component::RootDir, name("a"), name("b")]);
    assert_eq!(lower.strip_prefix(&upper), Some(windows(&[name("b")])));
    assert_eq!(lower.parent(), Some(upper.clone()));
    assert_eq!(lower.display(), "c:\\a\\b");
    assert_ne!(upper, windows(&[drive("D:"), Component::RootDir, name("a")]));
    assert_ne!(upper, windows(&[drive("C:"), Component::RootDir, name("A")]));
    assert_eq!(drive("\\\\?\\c:"), drive("\\\\?\\C:"));
    assert_ne!(drive("\\\\?\\c:"), drive("C:"));
    assert_eq!(drive("\\\\server\\share"), drive("//server/share"));
    assert_ne!(drive("\\\\?\\cat"), drive("//?/cat"));
    assert_ne!(drive("\\\\Server\\share"), drive("\\\\server\\share"));
}

#[test]
fn joining_to_a_verbatim_path_resolves() {
    let base = windows(&[drive("\\\\?\\C:"), Component::RootDir, name("a")]);
    let show = |rel: &[Component]| base.join(&windows(rel)).display();
    assert_eq!(show(&[name("b")]), "\\\\?\\C:\\a\\b");
    assert_eq!(show(&[Component::ParentDir, name("b")]), "\\\\?\\C:\\b");
    assert_eq!(show(&[Component::ParentDir, Component::ParentDir]), "\\\\?\\C:\\");
    assert_eq!(show(&[Component::CurDir, name("b")]), "\\\\?\\C:\\a\\b");
    assert_eq!(show(&[Component::RootDir, name("b")]), "\\\\?\\C:\\b");
    assert_eq!(show(&[drive("D:"), name("b")]), "D:b");
    // What stands in the base itself is left alone.
    let odd = windows(&[
        drive("\\\\?\\C:"),
        Component::RootDir,
        name("a"),
        Component::CurDir,
        Component::ParentDir,
    ]);
    assert_eq!(odd.components().len(), 5);
    assert_eq!(
        odd.join(&windows(&[name("b")])).display(),
        "\\\\?\\C:\\a\\.\\..\\b"
    );
    let rest = odd.strip_prefix(&windows(&[drive("\\\\?\\C:"), Component::RootDir])).unwrap();
    assert_eq!(rest, windows(&[name("a"), Component::ParentDir]));
    assert_eq!(rest.display(), "a\\.\\..");
}

#[test]
fn a_verbatim_prefix_gets_its_root() {
    let disk = windows(&[drive("\\\\?\\C:")]);
    let below = disk.join(&windows(&[name("a")]));
    assert_eq!(below.display(), "\\\\?\\C:\\a");
    assert_eq!(below.components()[1], Component::RootDir);
    assert_eq!(disk.join(&windows(&[])).display(), "\\\\?\\C:\\");
    assert_eq!(disk.join(&windows(&[Component::ParentDir])).display(), "\\\\?\\C:");
    let share = windows(&[drive("\\\\?\\UNC\\server\\share")]);
    assert_eq!(
        share.join(&windows(&[name("a.txt")])).display(),
        "\\\\?\\UNC\\server\\share\\a.txt"
    );
}

#[test]
fn names_are_shown_as_text() {
    let p = path(&[name("größe"), Component::Normal(vec![b'a', 0xff, b'b'])]);
    assert_eq!(p.display(), "größe/a\u{fffd}b");
}

#[test]
fn an_unpaired_surrogate_is_shown_as_one_character() {
    let odd = Component::Normal(vec![b'a', 0xed, 0xa0, 0x80, b'b']);
    assert_eq!(windows(&[odd.clone()]).display(), "a\u{fffd}b");
    assert_eq!(path(&[odd]).display(), "a\u{fffd}\u{fffd}\u{fffd}b");
    assert_eq!(windows(&[name("\u{d7ff}")]).display(), "\u{d7ff}");
}

#[test]
fn components_are_kept() {
    let parts = vec![Component::RootDir, name("a"), Component::ParentDir, name("b")];
    let p = path(&parts);
    assert_eq!(p.components(), parts);
    assert!(p.same(&p.clone()));
    assert!(!p.same(&path(&[Component::RootDir])));
    // A root in the middle starts over.
    assert_eq!(
        path(&[name("a"), Component::RootDir, name("b")]),
        path(&[Component::RootDir, name("b")])
    );
    // A `.` in the middle adds nothing.
    assert_eq!(path(&[name("a"), Component::CurDir, name("b")]), path(&[name("a"), name("b")]));
}
