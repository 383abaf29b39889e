use bootc::etc_merge::{
    classify, collect_all_files, compute_diff, digested_content, hashed_content, plain_stat,
    sealed_content, stat_eq, CustomMetadata, Directory, EntryClass, Inode, Leaf, Xattr,
};

const FILES: &[(&str, &str)] = &[
    ("a/file1", "a-file1"),
    ("a/file2", "a-file2"),
    ("a/b/file1", "ab-file1"),
    ("a/b/file2", "ab-file2"),
    ("a/b/c/fileabc", "abc-file1"),
    ("a/b/c/modify-perms", "modify-perms"),
    ("a/b/c/to-be-removed", "remove this"),
    ("to-be-removed", "remove this 2"),
];

/// The tree of files with these paths, contents and modes.
fn tree(files: &[(&str, &str, u32)]) -> Directory {
    let mut root = Directory::new();
    let mut subdirs: Vec<&str> = vec![];
    for (path, content, mode) in files {
        match path.split_once('/') {
            Some((dir, _)) => {
                if !subdirs.contains(&dir) {
                    subdirs.push(dir);
                }
            }
            None => {
                let leaf = Leaf {
                    stat: plain_stat(*mode, 0, 0, 0),
                    content: hashed_content(content.as_bytes()).unwrap(),
                };
                root.insert(path.as_bytes().to_vec(), Inode::Leaf(leaf));
            }
        }
    }
    for dir in subdirs {
        let inner: Vec<(&str, &str, u32)> = files
            .iter()
            .filter_map(|(p, c, m)| match p.split_once('/') {
                Some((d, rest)) if d == dir => Some((rest, *c, *m)),
                _ => None,
            })
            .collect();
        root.insert(dir.as_bytes().to_vec(), Inode::Directory(tree(&inner)));
    }
    root
}

#[test]
fn test_etc_diff() {
    let pristine: Vec<(&str, &str, u32)> = FILES.iter().map(|(p, c)| (*p, *c, 0o644)).collect();
    let mut current = pristine.clone();

    let new_files = ["new_file", "a/new_file", "a/b/c/new_file"];

    // Add some new files
    for file in new_files {
        current.push((file, "hello", 0o644));
    }

    let overwritten_files = [FILES[1].0, FILES[4].0];
    let perm_changed_files = [FILES[5].0];

    // Modify some files
    current[1].1 = "some new content";
    current[4].1 = "some newer content";

    // Modify permissions
    current[5].2 = 0o400;

    // Remove some files
    let deleted_files = [FILES[6].0, FILES[7].0];
    current.retain(|(p, _, _)| !deleted_files.contains(p));

    let res = compute_diff(&tree(&pristine), &tree(&current));

    // Test added files
    assert_eq!(res.added.len(), new_files.len());
    assert!(res
        .added
        .iter()
        .all(|file| new_files.iter().any(|x| x.as_bytes() == &file[..])));

    // Test modified files
    let all_modified_files: Vec<&&str> =
        overwritten_files.iter().chain(&perm_changed_files).collect();

    assert_eq!(res.modified.len(), all_modified_files.len());
    assert!(res
        .modified
        .iter()
        .all(|file| all_modified_files.iter().any(|x| x.as_bytes() == &file[..])));

    // Test removed files
    assert_eq!(res.removed.len(), deleted_files.len());
    assert!(res
        .removed
        .iter()
        .all(|file| deleted_files.iter().any(|x| x.as_bytes() == &file[..])));
}

#[test]
fn an_unchanged_tree_has_no_difference() {
    let files: Vec<(&str, &str, u32)> = FILES.iter().map(|(p, c)| (*p, *c, 0o644)).collect();
    let d = compute_diff(&tree(&files), &tree(&files));
    assert!(d.added.is_empty() && d.modified.is_empty() && d.removed.is_empty());
}

#[test]
fn directories_that_come_and_go() {
    let a = tree(&[("gone/x", "1", 0o644), ("stays", "2", 0o644)]);
    let b = tree(&[("new/y/z", "1", 0o644), ("stays", "2", 0o644)]);
    let d = compute_diff(&a, &b);
    assert_eq!(d.added, vec![b"new".to_vec(), b"new/y/z".to_vec()]);
    assert_eq!(d.removed, vec![b"gone".to_vec()]);
    assert!(d.modified.is_empty());
    assert_eq!(collect_all_files(&b), vec![b"new/y/z".to_vec(), b"stays".to_vec()]);
}

#[test]
fn a_file_that_becomes_a_directory_is_modified() {
    let file = tree(&[("d/x", "1", 0o644), ("other", "2", 0o644)]);
    let dir = tree(&[("d/x/y", "1", 0o644), ("other", "2", 0o644)]);
    for (a, b) in [(&file, &dir), (&dir, &file)] {
        let d = compute_diff(a, b);
        assert_eq!(d.modified, vec![b"d/x".to_vec()]);
        assert!(d.added.is_empty() && d.removed.is_empty());
    }
}

#[test]
fn a_file_in_an_added_directory() {
    let d = compute_diff(&Directory::new(), &tree(&[("d/f", "1", 0o644)]));
    assert_eq!(d.added, vec![b"d".to_vec(), b"d/f".to_vec()]);
    assert!(d.modified.is_empty() && d.removed.is_empty());
}

#[test]
fn sealed_files_differ_by_their_verity() {
    let sealed = |verity: &str| {
        let mut d = Directory::new();
        let leaf = Leaf {
            stat: plain_stat(0o644, 0, 0, 0),
            content: sealed_content(verity.to_string()),
        };
        d.insert(b"f".to_vec(), Inode::Leaf(leaf));
        d
    };
    assert_eq!(compute_diff(&sealed("a"), &sealed("b")).modified, vec![b"f".to_vec()]);
    assert!(compute_diff(&sealed("a"), &sealed("a")).modified.is_empty());
    let plain = tree(&[("f", "", 0o644)]);
    assert_eq!(compute_diff(&sealed("a"), &plain).modified, vec![b"f".to_vec()]);
}

#[test]
fn entries_are_kept_in_order() {
    let mut d = Directory::new();
    for name in ["b", "a", "c", "a"] {
        d.insert(name.as_bytes().to_vec(), Inode::Directory(Directory::new()));
    }
    let names: Vec<&[u8]> = d.entries.iter().map(|e| &e.name[..]).collect();
    assert_eq!(names, vec![b"a", b"b", b"c"]);
}

#[test]
fn attributes_that_count() {
    let base = || plain_stat(0o644, 1, 2, 3);
    assert!(stat_eq(&base(), &base()));
    assert!(!stat_eq(&base(), &plain_stat(0o600, 1, 2, 3)));
    assert!(!stat_eq(&base(), &plain_stat(0o644, 9, 2, 3)));
    assert!(!stat_eq(&base(), &plain_stat(0o644, 1, 9, 3)));
    assert!(!stat_eq(&base(), &plain_stat(0o644, 1, 2, 9)));
    let mut labelled = base();
    labelled.xattrs.push(Xattr { name: b"security.selinux".to_vec(), value: b"x".to_vec() });
    assert!(!stat_eq(&base(), &labelled));

    // The order of extended attributes does not count.
    let with = |xattrs: &[(&str, &str)]| {
        let mut s = base();
        for (name, value) in xattrs {
            s.xattrs.push(Xattr {
                name: name.as_bytes().to_vec(),
                value: value.as_bytes().to_vec(),
            });
        }
        s
    };
    assert!(stat_eq(&with(&[("a", "1"), ("b", "2")]), &with(&[("b", "2"), ("a", "1")])));
    assert!(!stat_eq(&with(&[("a", "1"), ("b", "2")]), &with(&[("a", "2"), ("b", "1")])));
    assert!(!stat_eq(&with(&[("a", "1")]), &with(&[("a", "1"), ("b", "2")])));
    assert!(stat_eq(&with(&[("a", "0"), ("a", "1")]), &with(&[("a", "1")])));
}

#[test]
fn contents_of_files() {
    assert_eq!(
        hashed_content(b"abc").unwrap().content_hash,
        "ba7816bf8f01cfea414140de5dae2223b00361a396177a9cb410ff61f20015ad"
    );
    assert_eq!(hashed_content(b"abc").unwrap().verity, None);
    let d = digested_content(Some("00ff".to_string())).unwrap();
    assert_eq!(d.content_hash, "00ff");
    assert_eq!(d.verity, None);
    assert!(digested_content(None).is_none());
    let s = sealed_content("v".to_string());
    assert_eq!(s.content_hash, "");
    assert_eq!(s.verity, Some("v".to_string()));
    let m = CustomMetadata::new("h".to_string(), None);
    assert_eq!(m.content_hash, "h");
    assert_eq!(classify(true, false, false), EntryClass::Directory);
    assert_eq!(classify(false, true, false), EntryClass::Leaf);
    assert_eq!(classify(false, false, true), EntryClass::Leaf);
    assert_eq!(classify(false, false, false), EntryClass::Ignored);
}
