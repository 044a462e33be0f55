use adbackup::ab_extracting::{ApplicationArchive, Category, Extract, Extraction, ToolMode};
use adbackup::archive::{place, read_archive, write_archive, ArchiveEntry, StoredEntry, DIRECTORY};
use adbackup::error::Error;

const FILE: u8 = 48;

fn path(text: &str) -> Vec<String> {
    text.split('/').map(|part| part.to_string()).collect()
}

fn file(name: &str, data: &[u8]) -> ArchiveEntry {
    ArchiveEntry::new(path(name), FILE, 0o644, data.to_vec())
}

fn dir(name: &str) -> ArchiveEntry {
    ArchiveEntry::new(path(name), DIRECTORY, 0o755, Vec::new())
}

fn mode_of(header: &[u8]) -> u32 {
    tar::Header::from_byte_slice(header).mode().unwrap()
}

/// What a member is, apart from what its header holds besides the mode.
fn shape(member: &ArchiveEntry) -> (String, u8, u32, Vec<u8>) {
    (member.path.join("/"), member.kind, mode_of(&member.header), member.data.clone())
}

fn shapes(members: &[ArchiveEntry]) -> Vec<(String, u8, u32, Vec<u8>)> {
    members.iter().map(shape).collect()
}

fn under(members: &[ArchiveEntry], category: &str, name: &str) -> Vec<ArchiveEntry> {
    members
        .iter()
        .filter(|m| m.path.len() >= 2 && m.path[0] == category && m.path[1] == name)
        .cloned()
        .collect()
}

fn two_by_two() -> Vec<ArchiveEntry> {
    vec![
        file("apps/com.one/_manifest", b"one"),
        file("shared/0/Music/a.mp3", b"music"),
        file("apps/com.two/f/data.bin", &[0, 1, 2, 3]),
        dir("shared/1"),
        file("apps/com.one/a/base.apk", b"apk"),
        file("shared/1/Pictures/p.png", b"png"),
    ]
}

#[test]
fn extract_packs_each_application_into_one_archive() {
    let container = write_archive(&two_by_two()).unwrap();
    let Extraction { categories, files, skipped } = Extract::extract_to_folder(&container).unwrap();
    assert_eq!(skipped, 0);
    assert_eq!(files, Vec::new());
    assert_eq!(categories.len(), 2);
    assert_eq!(categories[0].name, "apps");
    assert_eq!(categories[1].name, "shared");
    for category in &categories {
        assert_eq!(category.archives.len(), 2);
        assert_eq!(category.files.len(), 0);
    }
    assert_eq!(categories[0].archives[0].name, "com.one");
    assert_eq!(categories[0].archives[1].name, "com.two");
    assert_eq!(categories[1].archives[0].name, "0");
    assert_eq!(categories[1].archives[1].name, "1");
    assert_eq!(
        shapes(&categories[0].archives[0].members),
        shapes(&[file("com.one/_manifest", b"one"), file("com.one/a/base.apk", b"apk")])
    );
    assert_eq!(
        shapes(&categories[1].archives[1].members),
        shapes(&[dir("1"), file("1/Pictures/p.png", b"png")])
    );
}

#[test]
fn extract_then_pack_keeps_every_application() {
    let container = write_archive(&two_by_two()).unwrap();
    let members = Extract::readable_members(&read_archive(&container).unwrap());
    let extraction = Extract::extract_to_folder(&container).unwrap();
    let packed = Extract::pack_from_folder(&extraction.categories).unwrap();
    let stored = read_archive(&packed).unwrap();
    let again = Extract::readable_members(&stored);
    for (category, name) in [("apps", "com.one"), ("apps", "com.two"), ("shared", "0"), ("shared", "1")] {
        // member for member, header blocks included
        assert_eq!(under(&again, category, name), under(&members, category, name));
        assert!(!under(&again, category, name).is_empty());
    }
    assert_eq!(under(&again, "apps", "com.three"), Vec::new());
    // each category comes first, as a directory
    assert_eq!(shape(&again[0]), shape(&dir("apps")));
    assert_eq!(again.len(), members.len() + 2);
    // and unpacking what was packed gives the same tree
    assert_eq!(Extract::extract_to_folder(&packed).unwrap(), extraction);
}

#[test]
fn application_archives_survive_writing_and_reading() {
    let container = write_archive(&two_by_two()).unwrap();
    let extraction = Extract::extract_to_folder(&container).unwrap();
    for category in &extraction.categories {
        for archive in &category.archives {
            let bytes = write_archive(&archive.members).unwrap();
            let back = Extract::readable_members(&read_archive(&bytes).unwrap());
            assert_eq!(shapes(&back), shapes(&archive.members));
            // written again from what was read, the archive is the same, byte for byte
            assert_eq!(write_archive(&back).unwrap(), bytes);
        }
    }
}

#[test]
fn what_the_header_holds_is_carried_through() {
    let mut builder = tar::Builder::new(Vec::new());
    let mut header = tar::Header::new_gnu();
    header.set_entry_type(tar::EntryType::Regular);
    header.set_mode(0o640);
    header.set_mtime(1_500_000_000);
    header.set_uid(10123);
    header.set_gid(10456);
    header.set_username("u0_a123").unwrap();
    header.set_size(3);
    builder.append_data(&mut header, "apps/com.one/f/a.txt", &b"abc"[..]).unwrap();
    let mut link = tar::Header::new_gnu();
    link.set_entry_type(tar::EntryType::Symlink);
    link.set_mode(0o777);
    link.set_mtime(7);
    link.set_size(0);
    builder.append_link(&mut link, "apps/com.one/f/link", "a.txt").unwrap();
    let container = builder.into_inner().unwrap();

    let extraction = Extract::extract_to_folder(&container).unwrap();
    let packed = Extract::pack_from_folder(&extraction.categories).unwrap();
    let mut archive = tar::Archive::new(&packed[..]);
    let entries: Vec<_> = archive.entries().unwrap().map(|e| e.unwrap()).collect();
    assert_eq!(entries.len(), 3);
    let first = &entries[1];
    assert_eq!(first.path_bytes().as_ref(), b"apps/com.one/f/a.txt");
    assert_eq!(first.header().mode().unwrap(), 0o640);
    assert_eq!(first.header().mtime().unwrap(), 1_500_000_000);
    assert_eq!(first.header().uid().unwrap(), 10123);
    assert_eq!(first.header().gid().unwrap(), 10456);
    assert_eq!(first.header().username().unwrap(), Some("u0_a123"));
    assert_eq!(first.header().size().unwrap(), 3);
    let second = &entries[2];
    assert_eq!(second.header().entry_type(), tar::EntryType::Symlink);
    assert_eq!(second.link_name_bytes().unwrap().as_ref(), b"a.txt");
    assert_eq!(second.header().mtime().unwrap(), 7);
    // the members of the container are in what was packed, block for block
    assert_eq!(&packed[512..], &container[..]);
}

#[test]
fn members_that_cannot_be_placed_are_left_out_and_counted() {
    let mut builder = tar::Builder::new(Vec::new());
    for name in [&b"apps/com.one/ok"[..], &b"apps/../../etc/passwd"[..], &b"apps/com.one/\xff\xfe"[..], &b"./"[..]] {
        let mut header = tar::Header::new_gnu();
        header.as_old_mut().name[..name.len()].copy_from_slice(name);
        header.set_entry_type(tar::EntryType::Regular);
        header.set_mode(0o600);
        header.set_size(2);
        header.set_cksum();
        builder.append(&header, &b"hi"[..]).unwrap();
    }
    let container = builder.into_inner().unwrap();
    let stored = read_archive(&container).unwrap();
    assert_eq!(stored.len(), 4);
    assert_eq!(stored[0].name, b"apps/com.one/ok".to_vec());
    assert_eq!(stored[2].name, b"apps/com.one/\xff\xfe".to_vec());
    assert_eq!(stored[0].header.len(), 512);
    assert_eq!(stored[0].header, container[..512].to_vec());
    assert_eq!(mode_of(&stored[0].header), 0o600);
    assert_eq!(stored[0].kind, FILE);
    assert_eq!(stored[0].data, b"hi".to_vec());
    let extraction = Extract::extract_to_folder(&container).unwrap();
    assert_eq!(extraction.skipped, 3);
    assert_eq!(extraction.files, Vec::new());
    assert_eq!(extraction.categories.len(), 1);
    assert_eq!(extraction.categories[0].name, "apps");
    assert_eq!(extraction.categories[0].files, Vec::new());
    assert_eq!(extraction.categories[0].archives.len(), 1);
    assert_eq!(extraction.categories[0].archives[0].name, "com.one");
    assert_eq!(
        extraction.categories[0].archives[0].members,
        vec![ArchiveEntry {
            path: path("com.one/ok"),
            kind: FILE,
            header: container[..512].to_vec(),
            data: b"hi".to_vec(),
        }]
    );
}

#[test]
fn names_are_placed_by_their_components() {
    let stored = |name: &[u8]| StoredEntry { name: name.to_vec(), kind: FILE, header: vec![0; 512], data: vec![1] };
    assert_eq!(place(&stored(b"a/b")).unwrap().path, path("a/b"));
    assert_eq!(place(&stored(b"/a//./b/")).unwrap().path, path("a/b"));
    assert_eq!(place(&stored(b"a/..b/c.")).unwrap().path, path("a/..b/c."));
    assert_eq!(place(&stored("\u{e4}/\u{1F600}".as_bytes())).unwrap().path, path("\u{e4}/\u{1F600}"));
    assert_eq!(place(&stored(b"a/../b")), None);
    assert_eq!(place(&stored(b"..")), None);
    assert_eq!(place(&stored(b"./.")), None);
    assert_eq!(place(&stored(b"")), None);
    assert_eq!(place(&stored(b"a/\xff")), None);
    assert_eq!(place(&stored(b"\xc3")), None);
    let placed = place(&StoredEntry { name: b"x".to_vec(), kind: DIRECTORY, header: vec![9; 512], data: vec![] }).unwrap();
    assert_eq!(placed, ArchiveEntry { path: path("x"), kind: DIRECTORY, header: vec![9; 512], data: vec![] });
}

#[test]
fn plain_files_of_a_category_are_left_as_they_are() {
    let members = vec![
        file("apps/readme.txt", b"read"),
        file("apps/com.one/x", b"x"),
        dir("apps/empty"),
        file("apps/notes", b"n"),
    ];
    let categories = Extract::categorize(&members);
    assert_eq!(categories.len(), 1);
    assert_eq!(
        categories[0].archives,
        vec![
            ApplicationArchive { name: "com.one".to_string(), members: vec![file("com.one/x", b"x")] },
            ApplicationArchive { name: "empty".to_string(), members: vec![dir("empty")] },
        ]
    );
    assert_eq!(categories[0].files, vec![file("readme.txt", b"read"), file("notes", b"n")]);
    let back = Extract::members_of(&categories);
    assert_eq!(
        back,
        vec![
            dir("apps"),
            file("apps/com.one/x", b"x"),
            dir("apps/empty"),
            file("apps/readme.txt", b"read"),
            file("apps/notes", b"n"),
        ]
    );
}

#[test]
fn a_plain_file_at_the_top_is_not_a_category() {
    let members = vec![
        file("apps/com.one/x", b"x"),
        file("stray.txt", b"s"),
        file("apps", b"named like a category"),
        file("other", b"o"),
    ];
    let categories = Extract::categorize(&members);
    assert_eq!(
        categories,
        vec![Category {
            name: "apps".to_string(),
            archives: vec![ApplicationArchive {
                name: "com.one".to_string(),
                members: vec![file("com.one/x", b"x")],
            }],
            files: Vec::new(),
        }]
    );
    assert_eq!(
        Extract::files_at_top(&members),
        vec![file("stray.txt", b"s"), file("apps", b"named like a category"), file("other", b"o")]
    );
    let container = write_archive(&members).unwrap();
    let extraction = Extract::extract_to_folder(&container).unwrap();
    assert_eq!(extraction.skipped, 0);
    assert_eq!(extraction.categories.len(), 1);
    assert_eq!(extraction.categories[0].name, "apps");
    assert_eq!(extraction.categories[0].archives.len(), 1);
    assert_eq!(
        shapes(&extraction.files),
        shapes(&[file("stray.txt", b"s"), file("apps", b"named like a category"), file("other", b"o")])
    );
    // packing the tree leaves the files at the top aside
    let packed = Extract::pack_from_folder(&extraction.categories).unwrap();
    let again = Extract::extract_to_folder(&packed).unwrap();
    assert_eq!(again.files, Vec::new());
    assert_eq!(again.categories, extraction.categories);
}

#[test]
fn only_plain_files_at_the_top_make_no_category() {
    let members = vec![file("a", b"1"), file("b", b"2")];
    assert_eq!(Extract::categorize(&members), Vec::new());
    assert_eq!(Extract::files_at_top(&members), members);
}

#[test]
fn an_empty_category_is_kept() {
    let members = vec![dir("apps"), dir("shared"), file("shared/0/a", b"a")];
    let categories = Extract::categorize(&members);
    assert_eq!(categories.len(), 2);
    assert_eq!(categories[0], Category { name: "apps".to_string(), archives: vec![], files: vec![] });
    assert_eq!(categories[1].archives.len(), 1);
    assert_eq!(Extract::members_of(&categories), vec![dir("apps"), dir("shared"), file("shared/0/a", b"a")]);
    assert_eq!(Extract::files_at_top(&members), Vec::new());
}

#[test]
fn nothing_unpacks_to_nothing() {
    assert_eq!(Extract::categorize(&Vec::new()), Vec::new());
    assert_eq!(Extract::members_of(&Vec::new()), Vec::new());
    let empty = write_archive(&Vec::new()).unwrap();
    assert_eq!(empty.len(), 1024);
    assert_eq!(read_archive(&empty), Ok(Vec::new()));
    assert_eq!(
        Extract::extract_to_folder(&empty),
        Ok(Extraction { categories: Vec::new(), files: Vec::new(), skipped: 0 })
    );
    assert_eq!(read_archive(&Vec::new()), Ok(Vec::new()));
}

#[test]
fn bytes_that_are_no_archive_are_refused() {
    let garbage = vec![7u8; 700];
    assert_eq!(read_archive(&garbage), Err(Error::Archive));
    assert_eq!(Extract::extract_to_folder(&garbage), Err(Error::Archive));
    assert_eq!(Error::Archive.message(), "Could not read or write the archive");
}

#[test]
fn a_member_that_the_format_refuses_fails_the_archive() {
    let members = vec![file("apps/com.one/x", b"x"), file("apps/../x", b"x")];
    assert_eq!(write_archive(&members), Err(Error::Archive));
    let tree = vec![Category { name: "..".to_string(), archives: vec![], files: vec![] }];
    assert_eq!(Extract::pack_from_folder(&tree), Err(Error::Archive));
}

#[test]
fn a_header_of_another_length_fails_the_archive() {
    let mut member = file("apps/com.one/x", b"x");
    assert_eq!(member.header.len(), 512);
    member.header.pop();
    assert_eq!(write_archive(&vec![member.clone()]), Err(Error::Archive));
    member.header = Vec::new();
    assert_eq!(write_archive(&vec![member]), Err(Error::Archive));
}

#[test]
fn a_fresh_member_has_its_kind_and_mode() {
    let member = ArchiveEntry::new(path("a/b"), DIRECTORY, 0o750, Vec::new());
    assert_eq!(member.path, path("a/b"));
    assert_eq!(member.kind, DIRECTORY);
    assert_eq!(member.data, Vec::new());
    let header = tar::Header::from_byte_slice(&member.header);
    assert_eq!(header.mode().unwrap(), 0o750);
    assert_eq!(header.entry_type(), tar::EntryType::Directory);
    assert_eq!(header.mtime().unwrap(), 0);
}

#[test]
fn an_archive_holds_its_members_in_order() {
    let long = "d/".repeat(80) + "file";
    let members = vec![file("b", b"second first"), dir("a"), file(&long, &[5u8; 1000])];
    let bytes = write_archive(&members).unwrap();
    assert_eq!(bytes.len() % 512, 0);
    let mut archive = tar::Archive::new(&bytes[..]);
    let names: Vec<String> = archive
        .entries()
        .unwrap()
        .map(|e| String::from_utf8(e.unwrap().path_bytes().into_owned()).unwrap())
        .collect();
    assert_eq!(names, vec!["b".to_string(), "a".to_string(), long.clone()]);
    let stored = read_archive(&bytes).unwrap();
    assert_eq!(stored.len(), 3);
    assert_eq!(stored[1].kind, DIRECTORY);
    assert_eq!(mode_of(&stored[1].header), 0o755);
    assert_eq!(stored[2].data, vec![5u8; 1000]);
    assert_eq!(shapes(&Extract::readable_members(&stored)), shapes(&members));
}

#[test]
fn the_external_tool_is_run_with_mode_and_files() {
    assert_eq!(
        Extract::abe_arguments("/work/abe.jar", ToolMode::Unpack, "phone.ab", "out.tar", "secret"),
        vec!["-jar", "/work/abe.jar", "unpack", "phone.ab", "out.tar", "secret"]
    );
    assert_eq!(
        Extract::abe_arguments("abe.jar", ToolMode::Pack, "in.tar", "phone.ab", ""),
        vec!["-jar", "abe.jar", "pack", "in.tar", "phone.ab", ""]
    );
    assert_eq!(Extract::archive_name("out"), "out.tar");
    assert_eq!(Extract::archive_name(""), ".tar");
    assert_eq!(Extract::folder_name("com.one.tar"), "com.one");
    assert_eq!(Extract::folder_name(".tar"), "");
    assert_eq!(Extract::folder_name("com.one"), "com.one");
    assert_eq!(Extract::folder_name("tar"), "tar");
    assert_eq!(Extract::folder_name(&Extract::archive_name("a.tar")), "a.tar");
}

#[test]
fn the_outcome_of_the_external_tool() {
    assert_eq!(
        Extract::abe_outcome(false, true, "out".to_string(), "err".to_string()),
        Err(Error::ExternalToolMissing)
    );
    assert_eq!(
        Extract::abe_outcome(true, true, "out".to_string(), "err".to_string()),
        Ok("out".to_string())
    );
    assert_eq!(
        Extract::abe_outcome(true, false, "out".to_string(), "bad password".to_string()),
        Err(Error::ExternalToolFailure { message: "bad password".to_string() })
    );
    assert_eq!(Error::ExternalToolMissing.message(), "Cannot pack/unpack backup without abe.jar");
    assert_eq!(
        Error::ExternalToolFailure { message: "bad password".to_string() }.message(),
        "Error executing abe.jar.\n bad password"
    );
}
