//! The archive transcoder: from the archive inside a container to a tree of
//! categories that hold one archive for each application, and back.

use vstd::prelude::*;
use vstd::string::StringExecFns;
use crate::archive::{
    archive_members, copy_bytes, encoding, entry_views, header_image, place, placed, read_archive,
    stored_views,
    texts_of, write_archive, ArchiveEntry, ArchiveEntryView, StoredEntry, StoredEntryView,
    DIRECTORY,
};
use crate::error::Error;
use crate::text::{chars_of, string_of, strip_suffix, without_suffix};

verus! {

/// The archive of one application: the application's name and every member
/// that belongs to it, each with its path from the category downwards.
#[derive(Debug, PartialEq, Eq, Clone)]
pub struct ApplicationArchive {
    pub name: String,
    pub members: Vec<ArchiveEntry>,
}

/// What an `ApplicationArchive` holds.
pub struct ApplicationArchiveView {
    pub name: Seq<char>,
    pub members: Seq<ArchiveEntryView>,
}

impl View for ApplicationArchive {
    type V = ApplicationArchiveView;

    open spec fn view(&self) -> ApplicationArchiveView {
        ApplicationArchiveView { name: self.name@, members: entry_views(self.members@) }
    }
}

/// A category of an unpacked tree: its name, the archives of its
/// applications, and the plain files that stand beside them.
#[derive(Debug, PartialEq, Eq, Clone)]
pub struct Category {
    pub name: String,
    pub archives: Vec<ApplicationArchive>,
    pub files: Vec<ArchiveEntry>,
}

/// What a `Category` holds.
pub struct CategoryView {
    pub name: Seq<char>,
    pub archives: Seq<ApplicationArchiveView>,
    pub files: Seq<ArchiveEntryView>,
}

/// The views of `archives`, in order.
pub open spec fn archive_views(archives: Seq<ApplicationArchive>) -> Seq<ApplicationArchiveView> {
    Seq::new(archives.len(), |i: int| archives[i]@)
}

impl View for Category {
    type V = CategoryView;

    open spec fn view(&self) -> CategoryView {
        CategoryView {
            name: self.name@,
            archives: archive_views(self.archives@),
            files: entry_views(self.files@),
        }
    }
}

/// The views of `categories`, in order.
pub open spec fn category_views(categories: Seq<Category>) -> Seq<CategoryView> {
    Seq::new(categories.len(), |i: int| categories[i]@)
}

/// `names` without repetitions: of equal names the first stays.
pub open spec fn distinct(names: Seq<Seq<char>>) -> Seq<Seq<char>>
    decreases names.len(),
{
    if names.len() == 0 {
        Seq::empty()
    } else {
        let before = distinct(names.drop_last());
        if before.contains(names.last()) {
            before
        } else {
            before.push(names.last())
        }
    }
}

/// A plain file that stands directly where it is: its path is its name.
pub open spec fn is_plain(file: ArchiveEntryView) -> bool {
    file.path.len() == 1 && file.kind != DIRECTORY
}

/// The plain files at the top of the tree, beside the categories.
pub open spec fn top_files(members: Seq<ArchiveEntryView>) -> Seq<ArchiveEntryView> {
    members.filter(|m: ArchiveEntryView| is_plain(m))
}

/// `member` is a category or lies in one: it is a directory at the top of
/// the tree, or it lies below the top.
pub open spec fn is_rooted(member: ArchiveEntryView) -> bool {
    member.path.len() >= 2 || (member.path.len() == 1 && member.kind == DIRECTORY)
}

/// The category of each member that is one or lies in one.
pub open spec fn roots(members: Seq<ArchiveEntryView>) -> Seq<Seq<char>> {
    members.filter(|m: ArchiveEntryView| is_rooted(m)).map_values(
        |m: ArchiveEntryView| m.path[0],
    )
}

/// The categories of `members`, each once, in the order in which they first
/// occur.
pub open spec fn category_names(members: Seq<ArchiveEntryView>) -> Seq<Seq<char>> {
    distinct(roots(members))
}

/// `member` lies inside the category `category`.
pub open spec fn is_inside(member: ArchiveEntryView, category: Seq<char>) -> bool {
    member.path.len() >= 2 && member.path[0] == category
}

/// `member` is, or lies below, the entry `name` of the category `category`.
pub open spec fn is_under(member: ArchiveEntryView, category: Seq<char>, name: Seq<char>) -> bool {
    is_inside(member, category) && member.path[1] == name
}

/// The members that are, or lie below, the entry `name` of `category`.
pub open spec fn under(members: Seq<ArchiveEntryView>, category: Seq<char>, name: Seq<char>) -> Seq<
    ArchiveEntryView,
> {
    members.filter(|m: ArchiveEntryView| is_under(m, category, name))
}

/// `member` shows that the entry `name` of `category` is a directory: it is
/// that directory, or it lies below it.
pub open spec fn shows_directory(
    member: ArchiveEntryView,
    category: Seq<char>,
    name: Seq<char>,
) -> bool {
    is_under(member, category, name) && (member.path.len() >= 3 || member.kind == DIRECTORY)
}

/// The entry `name` of `category` is the directory of an application.
pub open spec fn is_application(
    members: Seq<ArchiveEntryView>,
    category: Seq<char>,
    name: Seq<char>,
) -> bool {
    exists|i: int| 0 <= i < members.len() && shows_directory(#[trigger] members[i], category, name)
}

/// The names of the entries of `category`, each once, in the order in which
/// they first occur.
pub open spec fn entry_names(members: Seq<ArchiveEntryView>, category: Seq<char>) -> Seq<
    Seq<char>,
> {
    distinct(
        members.filter(|m: ArchiveEntryView| is_inside(m, category)).map_values(
            |m: ArchiveEntryView| m.path[1],
        ),
    )
}

/// The names of the applications of `category`.
pub open spec fn application_names(members: Seq<ArchiveEntryView>, category: Seq<char>) -> Seq<
    Seq<char>,
> {
    entry_names(members, category).filter(|a: Seq<char>| is_application(members, category, a))
}

/// `member` with its path taken from the category downwards.
pub open spec fn relative(member: ArchiveEntryView) -> ArchiveEntryView {
    ArchiveEntryView {
        path: member.path.skip(1),
        kind: member.kind,
        header: member.header,
        data: member.data,
    }
}

/// The archive of the application `name` of `category`.
pub open spec fn application(
    members: Seq<ArchiveEntryView>,
    category: Seq<char>,
    name: Seq<char>,
) -> ApplicationArchiveView {
    ApplicationArchiveView {
        name,
        members: under(members, category, name).map_values(|m: ArchiveEntryView| relative(m)),
    }
}

/// `member` is a plain file of `category` that belongs to no application.
pub open spec fn is_plain_file(
    members: Seq<ArchiveEntryView>,
    member: ArchiveEntryView,
    category: Seq<char>,
) -> bool {
    is_inside(member, category) && !is_application(members, category, member.path[1])
}

/// The plain files of `category` that belong to no application.
pub open spec fn plain_files(members: Seq<ArchiveEntryView>, category: Seq<char>) -> Seq<
    ArchiveEntryView,
> {
    members.filter(|m: ArchiveEntryView| is_plain_file(members, m, category)).map_values(
        |m: ArchiveEntryView| relative(m),
    )
}

/// The category `name` of the tree that `members` unpack to.
pub open spec fn category(members: Seq<ArchiveEntryView>, name: Seq<char>) -> CategoryView {
    CategoryView {
        name,
        archives: application_names(members, name).map_values(
            |a: Seq<char>| application(members, name, a),
        ),
        files: plain_files(members, name),
    }
}

/// The tree that `members` unpack to, every application packed into its
/// archive.
pub open spec fn tree(members: Seq<ArchiveEntryView>) -> Seq<CategoryView> {
    category_names(members).map_values(|c: Seq<char>| category(members, c))
}

/// An archive of an application as unpacking makes it: every member lies in
/// the directory that is named like the archive, and one of them is that
/// directory or lies below it.
#[verifier::opaque]
pub open spec fn is_archive(archive: ApplicationArchiveView) -> bool {
    &&& forall|i: int|
        0 <= i < archive.members.len() ==> (#[trigger] archive.members[i]).path.len() >= 1
            && archive.members[i].path[0] == archive.name
    &&& exists|i: int|
        0 <= i < archive.members.len() && ((#[trigger] archive.members[i]).path.len() >= 2
            || archive.members[i].kind == DIRECTORY)
}

/// The names of the archives of `category`, in order.
pub open spec fn archive_names(category: CategoryView) -> Seq<Seq<char>> {
    category.archives.map_values(|a: ApplicationArchiveView| a.name)
}

/// A category as unpacking makes it: it holds one archive for each of its
/// applications and, beside the archives, plain files only; nothing of an
/// application lies outside its archive.
#[verifier::opaque]
pub open spec fn is_category(category: CategoryView) -> bool {
    &&& archive_names(category).no_duplicates()
    &&& forall|j: int|
        0 <= j < category.archives.len() ==> is_archive(#[trigger] category.archives[j])
    &&& forall|i: int|
        0 <= i < category.files.len() ==> is_plain(#[trigger] category.files[i])
            && !archive_names(category).contains(category.files[i].path[0])
}

/// The names of the categories of `tree`, in order.
pub open spec fn names_in(tree: Seq<CategoryView>) -> Seq<Seq<char>> {
    tree.map_values(|c: CategoryView| c.name)
}

/// A tree as unpacking makes it: every category once, each as unpacking
/// makes it.
#[verifier::opaque]
pub open spec fn is_unpacked_tree(tree: Seq<CategoryView>) -> bool {
    &&& names_in(tree).no_duplicates()
    &&& forall|k: int| 0 <= k < tree.len() ==> is_category(#[trigger] tree[k])
}

/// `s.take(i + 1)` is `s.take(i)` with `s[i]` after it.
pub proof fn lemma_take_next<A>(s: Seq<A>, i: int)
    requires
        0 <= i < s.len(),
    ensures
        s.take(i + 1) == s.take(i).push(s[i]),
{
    assert(s.take(i + 1) =~= s.take(i).push(s[i]));
}

/// Whether `name` is among `names`.
fn among(names: &Vec<String>, name: &String) -> (r: bool)
    ensures
        r == texts_of(names@).contains(name@),
{
    let mut i: usize = 0;
    while i < names.len()
        invariant
            i <= names.len(),
            forall|j: int| 0 <= j < i ==> texts_of(names@)[j] != name@,
        decreases names.len() - i,
    {
        if names[i] == *name {
            assert(texts_of(names@)[i as int] == name@);
            return true;
        }
        i += 1;
    }
    false
}

/// A copy of `member`.
fn copy_of(member: &ArchiveEntry) -> (r: ArchiveEntry)
    ensures
        r@ == member@,
{
    let mut path: Vec<String> = Vec::new();
    let mut i: usize = 0;
    while i < member.path.len()
        invariant
            i <= member.path.len(),
            texts_of(path@) == texts_of(member.path@).take(i as int),
        decreases member.path.len() - i,
    {
        let ghost before = texts_of(path@);
        path.push(member.path[i].clone());
        assert(texts_of(path@) =~= before.push(member.path@[i as int]@));
        i += 1;
        assert(texts_of(member.path@).take(i as int) =~= texts_of(member.path@).take(
            i as int - 1,
        ).push(member.path@[i as int - 1]@));
    }
    assert(texts_of(member.path@).take(i as int) =~= texts_of(member.path@));
    ArchiveEntry { path, kind: member.kind, header: copy_bytes(&member.header), data: copy_bytes(&member.data) }
}

/// The names of the categories of `members`.
fn names_of_categories(members: &Vec<ArchiveEntry>) -> (r: Vec<String>)
    ensures
        texts_of(r@) == category_names(entry_views(members@)),
{
    let ghost all = entry_views(members@);
    let ghost rooted = |m: ArchiveEntryView| is_rooted(m);
    let ghost root = |m: ArchiveEntryView| m.path[0];
    let mut names: Vec<String> = Vec::new();
    let mut i: usize = 0;
    while i < members.len()
        invariant
            i <= members.len(),
            all == entry_views(members@),
            rooted == (|m: ArchiveEntryView| is_rooted(m)),
            root == (|m: ArchiveEntryView| m.path[0]),
            texts_of(names@) == distinct(all.take(i as int).filter(rooted).map_values(root)),
        decreases members.len() - i,
    {
        let ghost before = all.take(i as int).filter(rooted).map_values(root);
        proof {
            lemma_take_next(all, i as int);
            all.take(i as int).lemma_filter_push(all[i as int], rooted);
        }
        let member = &members[i];
        if member.path.len() >= 2 || (member.path.len() == 1 && member.kind == DIRECTORY) {
            let ghost after = all.take(i as int + 1).filter(rooted).map_values(root);
            assert(after =~= before.push(member.path@[0]@));
            assert(after.drop_last() =~= before);
            if !among(&names, &member.path[0]) {
                let ghost old_names = texts_of(names@);
                names.push(member.path[0].clone());
                assert(texts_of(names@) =~= old_names.push(member.path@[0]@));
            }
        }
        i += 1;
    }
    assert(all.take(i as int) =~= all);
    names
}

/// The names of the entries of the category `category`.
fn names_of_entries(members: &Vec<ArchiveEntry>, category: &String) -> (r: Vec<String>)
    ensures
        texts_of(r@) == entry_names(entry_views(members@), category@),
{
    let ghost all = entry_views(members@);
    let ghost within = |m: ArchiveEntryView| is_inside(m, category@);
    let ghost second = |m: ArchiveEntryView| m.path[1];
    let mut names: Vec<String> = Vec::new();
    let mut i: usize = 0;
    while i < members.len()
        invariant
            i <= members.len(),
            all == entry_views(members@),
            within == (|m: ArchiveEntryView| is_inside(m, category@)),
            second == (|m: ArchiveEntryView| m.path[1]),
            texts_of(names@) == distinct(all.take(i as int).filter(within).map_values(second)),
        decreases members.len() - i,
    {
        let ghost before = all.take(i as int).filter(within).map_values(second);
        proof {
            lemma_take_next(all, i as int);
            all.take(i as int).lemma_filter_push(all[i as int], within);
        }
        let member = &members[i];
        if member.path.len() >= 2 && member.path[0] == *category {
            let ghost after = all.take(i as int + 1).filter(within).map_values(second);
            assert(after =~= before.push(member.path@[1]@));
            assert(after.drop_last() =~= before);
            if !among(&names, &member.path[1]) {
                let ghost old_names = texts_of(names@);
                names.push(member.path[1].clone());
                assert(texts_of(names@) =~= old_names.push(member.path@[1]@));
            }
        }
        i += 1;
    }
    assert(all.take(i as int) =~= all);
    names
}

/// Whether `member` is, or lies below, the entry `name` of `category`.
fn lies_under(member: &ArchiveEntry, category: &String, name: &String) -> (r: bool)
    ensures
        r == is_under(member@, category@, name@),
{
    member.path.len() >= 2 && member.path[0] == *category && member.path[1] == *name
}

/// Whether the entry `name` of `category` is the directory of an application.
fn holds_application(members: &Vec<ArchiveEntry>, category: &String, name: &String) -> (r: bool)
    ensures
        r == is_application(entry_views(members@), category@, name@),
{
    let ghost all = entry_views(members@);
    let mut i: usize = 0;
    while i < members.len()
        invariant
            i <= members.len(),
            all == entry_views(members@),
            forall|j: int| 0 <= j < i ==> !shows_directory(#[trigger] all[j], category@, name@),
        decreases members.len() - i,
    {
        let member = &members[i];
        if lies_under(member, category, name) && (member.path.len() >= 3 || member.kind
            == DIRECTORY) {
            assert(shows_directory(all[i as int], category@, name@));
            return true;
        }
        i += 1;
    }
    false
}

/// A copy of `member` with its path taken from the category downwards.
fn relative_copy(member: &ArchiveEntry) -> (r: ArchiveEntry)
    requires
        member.path.len() >= 1,
    ensures
        r@ == relative(member@),
{
    let mut path: Vec<String> = Vec::new();
    let mut i: usize = 1;
    while i < member.path.len()
        invariant
            1 <= i <= member.path.len(),
            texts_of(path@) == texts_of(member.path@).subrange(1, i as int),
        decreases member.path.len() - i,
    {
        let ghost before = texts_of(path@);
        path.push(member.path[i].clone());
        assert(texts_of(path@) =~= before.push(member.path@[i as int]@));
        i += 1;
        assert(texts_of(member.path@).subrange(1, i as int) =~= texts_of(member.path@).subrange(
            1,
            i as int - 1,
        ).push(member.path@[i as int - 1]@));
    }
    assert(texts_of(member.path@).subrange(1, i as int) =~= texts_of(member.path@).skip(1));
    ArchiveEntry { path, kind: member.kind, header: copy_bytes(&member.header), data: copy_bytes(&member.data) }
}

/// The archive of the application `name` of `category`.
fn archive_of(members: &Vec<ArchiveEntry>, category: &String, name: &String) -> (r:
    ApplicationArchive)
    ensures
        r@ == application(entry_views(members@), category@, name@),
{
    let ghost all = entry_views(members@);
    let ghost below = |m: ArchiveEntryView| is_under(m, category@, name@);
    let ghost rel = |m: ArchiveEntryView| relative(m);
    let mut out: Vec<ArchiveEntry> = Vec::new();
    let mut i: usize = 0;
    while i < members.len()
        invariant
            i <= members.len(),
            all == entry_views(members@),
            below == (|m: ArchiveEntryView| is_under(m, category@, name@)),
            rel == (|m: ArchiveEntryView| relative(m)),
            entry_views(out@) == all.take(i as int).filter(below).map_values(rel),
        decreases members.len() - i,
    {
        let ghost before = entry_views(out@);
        proof {
            lemma_take_next(all, i as int);
            all.take(i as int).lemma_filter_push(all[i as int], below);
        }
        let member = &members[i];
        if lies_under(member, category, name) {
            let copy = relative_copy(member);
            out.push(copy);
            assert(entry_views(out@) =~= before.push(relative(all[i as int])));
            assert(all.take(i as int + 1).filter(below).map_values(rel) =~= all.take(
                i as int,
            ).filter(below).map_values(rel).push(relative(all[i as int])));
        }
        i += 1;
    }
    assert(all.take(i as int) =~= all);
    ApplicationArchive { name: name.clone(), members: out }
}

/// The plain files of `category` that belong to no application.
fn files_beside(members: &Vec<ArchiveEntry>, category: &String) -> (r: Vec<ArchiveEntry>)
    ensures
        entry_views(r@) == plain_files(entry_views(members@), category@),
{
    let ghost all = entry_views(members@);
    let ghost free = |m: ArchiveEntryView| is_plain_file(all, m, category@);
    let ghost rel = |m: ArchiveEntryView| relative(m);
    let mut out: Vec<ArchiveEntry> = Vec::new();
    let mut i: usize = 0;
    while i < members.len()
        invariant
            i <= members.len(),
            all == entry_views(members@),
            free == (|m: ArchiveEntryView| is_plain_file(all, m, category@)),
            rel == (|m: ArchiveEntryView| relative(m)),
            entry_views(out@) == all.take(i as int).filter(free).map_values(rel),
        decreases members.len() - i,
    {
        let ghost before = entry_views(out@);
        proof {
            lemma_take_next(all, i as int);
            all.take(i as int).lemma_filter_push(all[i as int], free);
        }
        let member = &members[i];
        if member.path.len() >= 2 && member.path[0] == *category && !holds_application(
            members,
            category,
            &member.path[1],
        ) {
            let copy = relative_copy(member);
            out.push(copy);
            assert(entry_views(out@) =~= before.push(relative(all[i as int])));
            assert(all.take(i as int + 1).filter(free).map_values(rel) =~= all.take(
                i as int,
            ).filter(free).map_values(rel).push(relative(all[i as int])));
        }
        i += 1;
    }
    assert(all.take(i as int) =~= all);
    out
}

/// The category `name` of the tree that `members` unpack to.
fn category_of(members: &Vec<ArchiveEntry>, name: &String) -> (r: Category)
    ensures
        r@ == category(entry_views(members@), name@),
{
    let ghost all = entry_views(members@);
    let ghost packed = |a: Seq<char>| is_application(all, name@, a);
    let ghost pack = |a: Seq<char>| application(all, name@, a);
    let names = names_of_entries(members, name);
    let ghost every = texts_of(names@);
    let mut archives: Vec<ApplicationArchive> = Vec::new();
    let mut i: usize = 0;
    while i < names.len()
        invariant
            i <= names.len(),
            all == entry_views(members@),
            every == texts_of(names@),
            packed == (|a: Seq<char>| is_application(all, name@, a)),
            pack == (|a: Seq<char>| application(all, name@, a)),
            archive_views(archives@) == every.take(i as int).filter(packed).map_values(pack),
        decreases names.len() - i,
    {
        let ghost before = archive_views(archives@);
        proof {
            lemma_take_next(every, i as int);
            every.take(i as int).lemma_filter_push(every[i as int], packed);
        }
        if holds_application(members, name, &names[i]) {
            let archive = archive_of(members, name, &names[i]);
            archives.push(archive);
            assert(archive_views(archives@) =~= before.push(pack(every[i as int])));
            assert(every.take(i as int + 1).filter(packed).map_values(pack) =~= every.take(
                i as int,
            ).filter(packed).map_values(pack).push(pack(every[i as int])));
        }
        i += 1;
    }
    assert(every.take(i as int) =~= every);
    Category { name: name.clone(), archives, files: files_beside(members, name) }
}

/// The permission bits of the directory that pack writes for a category.
pub const DIRECTORY_MODE: u32 = 493;

/// The member that stands for the directory of the category `name`.
pub open spec fn directory(name: Seq<char>) -> ArchiveEntryView {
    ArchiveEntryView {
        path: seq![name],
        kind: DIRECTORY,
        header: header_image(DIRECTORY, DIRECTORY_MODE),
        data: Seq::empty(),
    }
}

/// `member` with its path taken from the top of the tree, through the
/// category `name`.
pub open spec fn prefixed(name: Seq<char>, member: ArchiveEntryView) -> ArchiveEntryView {
    ArchiveEntryView {
        path: seq![name] + member.path,
        kind: member.kind,
        header: member.header,
        data: member.data,
    }
}

/// The members of `members`, each below the category `name`.
pub open spec fn all_prefixed(name: Seq<char>, members: Seq<ArchiveEntryView>) -> Seq<
    ArchiveEntryView,
> {
    members.map_values(|m: ArchiveEntryView| prefixed(name, m))
}

/// What a category unpacks to: its directory, then the members of its
/// archives, archive by archive, then its plain files.
#[verifier::opaque]
pub open spec fn category_members(category: CategoryView) -> Seq<ArchiveEntryView> {
    seq![directory(category.name)] + category.archives.map_values(
        |a: ApplicationArchiveView| all_prefixed(category.name, a.members),
    ).flatten() + all_prefixed(category.name, category.files)
}

/// What a tree unpacks to, category by category.
pub open spec fn tree_members(tree: Seq<CategoryView>) -> Seq<ArchiveEntryView> {
    tree.map_values(|c: CategoryView| category_members(c)).flatten()
}

/// The members that can be placed, in their order.
pub open spec fn readable(stored: Seq<StoredEntryView>) -> Seq<ArchiveEntryView> {
    stored.filter_map(|m: StoredEntryView| placed(m))
}

/// Appends to `out` the members of `members`, each below the category
/// `name`.
fn push_prefixed(out: &mut Vec<ArchiveEntry>, name: &String, members: &Vec<ArchiveEntry>)
    ensures
        entry_views(final(out)@) == entry_views(old(out)@) + all_prefixed(
            name@,
            entry_views(members@),
        ),
{
    let ghost start = entry_views(out@);
    let ghost all = entry_views(members@);
    let mut i: usize = 0;
    assert(all_prefixed(name@, all.take(0)) =~= Seq::empty());
    assert(start + Seq::<ArchiveEntryView>::empty() =~= start);
    while i < members.len()
        invariant
            i <= members.len(),
            all == entry_views(members@),
            entry_views(out@) == start + all_prefixed(name@, all.take(i as int)),
        decreases members.len() - i,
    {
        let member = &members[i];
        let mut path: Vec<String> = Vec::new();
        path.push(name.clone());
        let mut k: usize = 0;
        assert(texts_of(path@) =~= seq![name@] + texts_of(member.path@).take(0));
        while k < member.path.len()
            invariant
                k <= member.path.len(),
                texts_of(path@) == seq![name@] + texts_of(member.path@).take(k as int),
            decreases member.path.len() - k,
        {
            let ghost before = texts_of(path@);
            path.push(member.path[k].clone());
            assert(texts_of(path@) =~= before.push(member.path@[k as int]@));
            k += 1;
            assert(texts_of(member.path@).take(k as int) =~= texts_of(member.path@).take(
                k as int - 1,
            ).push(member.path@[k as int - 1]@));
            assert(texts_of(path@) =~= seq![name@] + texts_of(member.path@).take(k as int));
        }
        assert(texts_of(member.path@).take(k as int) =~= texts_of(member.path@));
        let copy = ArchiveEntry {
            path,
            kind: member.kind,
            header: copy_bytes(&member.header),
            data: copy_bytes(&member.data),
        };
        assert(copy@ == prefixed(name@, all[i as int]));
        let ghost before = entry_views(out@);
        out.push(copy);
        assert(entry_views(out@) =~= before.push(prefixed(name@, all[i as int])));
        proof {
            lemma_take_next(all, i as int);
            assert(all_prefixed(name@, all.take(i as int + 1)) =~= all_prefixed(
                name@,
                all.take(i as int),
            ).push(prefixed(name@, all[i as int])));
        }
        i += 1;
        assert(entry_views(out@) =~= start + all_prefixed(name@, all.take(i as int)));
    }
    assert(all.take(i as int) =~= all);
}

/// Appends to `out` what the category `category` unpacks to.
fn push_category(out: &mut Vec<ArchiveEntry>, category: &Category)
    ensures
        entry_views(final(out)@) == entry_views(old(out)@) + category_members(category@),
{
    let ghost start = entry_views(out@);
    let ghost name = category.name@;
    let ghost archives = archive_views(category.archives@);
    let ghost each = |a: ApplicationArchiveView| all_prefixed(name, a.members);
    let mut path: Vec<String> = Vec::new();
    path.push(category.name.clone());
    assert(texts_of(path@) =~= seq![name]);
    let top = ArchiveEntry::new(path, DIRECTORY, DIRECTORY_MODE, Vec::new());
    assert(top@ == directory(name));
    out.push(top);
    assert(entry_views(out@) =~= start + seq![directory(name)] + archives.take(0).map_values(
        each,
    ).flatten());
    let mut i: usize = 0;
    while i < category.archives.len()
        invariant
            i <= category.archives.len(),
            name == category.name@,
            archives == archive_views(category.archives@),
            each == (|a: ApplicationArchiveView| all_prefixed(name, a.members)),
            entry_views(out@) == start + seq![directory(name)] + archives.take(i as int).map_values(
                each,
            ).flatten(),
        decreases category.archives.len() - i,
    {
        push_prefixed(out, &category.name, &category.archives[i].members);
        proof {
            lemma_take_next(archives, i as int);
            let done = archives.take(i as int).map_values(each);
            assert(archives.take(i as int + 1).map_values(each) =~= done.push(
                each(archives[i as int]),
            ));
            done.lemma_flatten_push(each(archives[i as int]));
        }
        i += 1;
        assert(entry_views(out@) =~= start + seq![directory(name)] + archives.take(
            i as int,
        ).map_values(each).flatten());
    }
    assert(archives.take(i as int) =~= archives);
    push_prefixed(out, &category.name, &category.files);
    reveal(category_members);
    assert(entry_views(out@) =~= start + category_members(category@));
}

/// What unpacking an archive gives: the tree of categories, the plain files
/// at the top of the tree, which are left as they are, and the number of
/// members that were left out because they cannot be placed.
#[derive(Debug, PartialEq, Eq, Clone)]
pub struct Extraction {
    pub categories: Vec<Category>,
    pub files: Vec<ArchiveEntry>,
    pub skipped: usize,
}

/// The two ways to run the tool that wraps and unwraps containers.
#[derive(Debug, PartialEq, Eq, Clone, Copy, Structural)]
pub enum ToolMode {
    /// From an archive to a container.
    Pack,
    /// From a container to an archive.
    Unpack,
}

impl ToolMode {
    /// The word that tells the tool its mode.
    pub open spec fn word(self) -> Seq<char> {
        match self {
            ToolMode::Pack => "pack"@,
            ToolMode::Unpack => "unpack"@,
        }
    }
}

/// The archive transcoder.
pub struct Extract;

impl Extract {
    /// Places the members of an archive: those that cannot be placed are
    /// left out.
    pub fn readable_members(stored: &Vec<StoredEntry>) -> (r: Vec<ArchiveEntry>)
        ensures
            entry_views(r@) == readable(stored_views(stored@)),
            r@.len() <= stored@.len(),
    {
        let ghost all = stored_views(stored@);
        let ghost put = |m: StoredEntryView| placed(m);
        let mut out: Vec<ArchiveEntry> = Vec::new();
        let mut i: usize = 0;
        while i < stored.len()
            invariant
                i <= stored.len(),
                all == stored_views(stored@),
                put == (|m: StoredEntryView| placed(m)),
                out@.len() <= i,
                entry_views(out@) == all.take(i as int).filter_map(put),
            decreases stored.len() - i,
        {
            let ghost before = entry_views(out@);
            proof {
                all.lemma_filter_map_take_succ(put, i as int);
            }
            match place(&stored[i]) {
                Some(member) => {
                    out.push(member);
                    assert(entry_views(out@) =~= before.push(member@));
                    assert(entry_views(out@) =~= before + seq![member@]);
                },
                None => {
                    assert(before + Seq::<ArchiveEntryView>::empty() =~= before);
                },
            }
            i += 1;
        }
        assert(all.take(i as int) =~= all);
        out
    }

    /// Sorts `members` into categories and packs the members of each
    /// application into its archive. A plain file at the top of the tree is
    /// no category and lies in none: it is no part of the result.
    pub fn categorize(members: &Vec<ArchiveEntry>) -> (r: Vec<Category>)
        ensures
            category_views(r@) == tree(entry_views(members@)),
            is_unpacked_tree(category_views(r@)),
    {
        proof {
            crate::round_trip::lemma_tree_shape(entry_views(members@));
        }
        let ghost all = entry_views(members@);
        let ghost build = |c: Seq<char>| category(all, c);
        let names = names_of_categories(members);
        let ghost every = texts_of(names@);
        let mut out: Vec<Category> = Vec::new();
        let mut i: usize = 0;
        while i < names.len()
            invariant
                i <= names.len(),
                all == entry_views(members@),
                every == texts_of(names@),
                build == (|c: Seq<char>| category(all, c)),
                category_views(out@) == every.take(i as int).map_values(build),
            decreases names.len() - i,
        {
            let ghost before = category_views(out@);
            let one = category_of(members, &names[i]);
            out.push(one);
            assert(category_views(out@) =~= before.push(build(every[i as int])));
            proof {
                lemma_take_next(every, i as int);
            }
            i += 1;
            assert(category_views(out@) =~= every.take(i as int).map_values(build));
        }
        assert(every.take(i as int) =~= every);
        out
    }

    /// The plain files at the top of the tree, in their order.
    pub fn files_at_top(members: &Vec<ArchiveEntry>) -> (r: Vec<ArchiveEntry>)
        ensures
            entry_views(r@) == top_files(entry_views(members@)),
    {
        let ghost all = entry_views(members@);
        let ghost plain = |m: ArchiveEntryView| is_plain(m);
        let mut out: Vec<ArchiveEntry> = Vec::new();
        let mut i: usize = 0;
        while i < members.len()
            invariant
                i <= members.len(),
                all == entry_views(members@),
                plain == (|m: ArchiveEntryView| is_plain(m)),
                entry_views(out@) == all.take(i as int).filter(plain),
            decreases members.len() - i,
        {
            let ghost before = entry_views(out@);
            proof {
                lemma_take_next(all, i as int);
                all.take(i as int).lemma_filter_push(all[i as int], plain);
            }
            if members[i].path.len() == 1 && members[i].kind != DIRECTORY {
                out.push(copy_of(&members[i]));
                assert(entry_views(out@) =~= before.push(all[i as int]));
            }
            i += 1;
        }
        assert(all.take(i as int) =~= all);
        out
    }

    /// What the tree `categories` unpacks to: every archive opened below its
    /// category.
    pub fn members_of(categories: &Vec<Category>) -> (r: Vec<ArchiveEntry>)
        ensures
            entry_views(r@) == tree_members(category_views(categories@)),
    {
        let ghost all = category_views(categories@);
        let ghost each = |c: CategoryView| category_members(c);
        let mut out: Vec<ArchiveEntry> = Vec::new();
        let mut i: usize = 0;
        assert(entry_views(out@) =~= all.take(0).map_values(each).flatten());
        while i < categories.len()
            invariant
                i <= categories.len(),
                all == category_views(categories@),
                each == (|c: CategoryView| category_members(c)),
                entry_views(out@) == all.take(i as int).map_values(each).flatten(),
            decreases categories.len() - i,
        {
            push_category(&mut out, &categories[i]);
            proof {
                lemma_take_next(all, i as int);
                let done = all.take(i as int).map_values(each);
                assert(all.take(i as int + 1).map_values(each) =~= done.push(each(all[i as int])));
                done.lemma_flatten_push(each(all[i as int]));
            }
            i += 1;
        }
        assert(all.take(i as int) =~= all);
        out
    }

    /// Unpacks the archive `archive`, which the external tool made out of a
    /// container: its members are sorted into categories, and the members of
    /// each application are packed into one archive. Plain files at the top
    /// of the tree are handed out as they are. Members that cannot be placed
    /// are left out and counted. It fails only where `archive` cannot be
    /// read as an archive.
    pub fn extract_to_folder(archive: &Vec<u8>) -> (r: Result<Extraction, Error>)
        ensures
            match archive_members(archive@) {
                None => r == Err::<Extraction, Error>(Error::Archive),
                Some(stored) => r matches Ok(extraction) && category_views(extraction.categories@)
                    == tree(readable(stored)) && is_unpacked_tree(tree(readable(stored)))
                    && entry_views(extraction.files@) == top_files(readable(stored))
                    && extraction.skipped == stored.len() - readable(stored).len(),
            },
    {
        let stored = match read_archive(archive) {
            Ok(stored) => stored,
            Err(e) => {
                return Err(e);
            },
        };
        let members = Self::readable_members(&stored);
        let skipped = stored.len() - members.len();
        let categories = Self::categorize(&members);
        let files = Self::files_at_top(&members);
        Ok(Extraction { categories, files, skipped })
    }

    /// Packs the tree `categories` into one archive, for the external tool
    /// to make a container of: every category with what its archives and
    /// plain files unpack to.
    pub fn pack_from_folder(categories: &Vec<Category>) -> (r: Result<Vec<u8>, Error>)
        ensures
            match r {
                Ok(data) => encoding(tree_members(category_views(categories@))) == Some(data@),
                Err(e) => e == Error::Archive && encoding(
                    tree_members(category_views(categories@)),
                ) is None,
            },
    {
        let members = Self::members_of(categories);
        write_archive(&members)
    }

    /// The name of the archive that stands for the folder `folder`.
    pub fn archive_name(folder: &str) -> (r: String)
        ensures
            r@ == folder@ + ".tar"@,
    {
        String::from_str(folder).concat(".tar")
    }

    /// The name of the folder that the archive `archive` stands for: the
    /// name of the archive without `.tar` at its end.
    pub fn folder_name(archive: &str) -> (r: String)
        ensures
            r@ == without_suffix(archive@, ".tar"@),
    {
        let text = chars_of(archive);
        let suffix = chars_of(".tar");
        string_of(&strip_suffix(&text, &suffix))
    }

    /// The arguments to run the external tool with: the tool's file `tool`,
    /// the mode, the input, the output and the password.
    pub fn abe_arguments(
        tool: &str,
        mode: ToolMode,
        input: &str,
        output: &str,
        password: &str,
    ) -> (r: Vec<String>)
        ensures
            r.deep_view() == seq!["-jar"@, tool@, mode.word(), input@, output@, password@],
    {
        let mut out: Vec<String> = Vec::new();
        out.push(String::from_str("-jar"));
        out.push(String::from_str(tool));
        match mode {
            ToolMode::Pack => out.push(String::from_str("pack")),
            ToolMode::Unpack => out.push(String::from_str("unpack")),
        }
        out.push(String::from_str(input));
        out.push(String::from_str(output));
        out.push(String::from_str(password));
        assert(out.deep_view() =~= seq![
            "-jar"@,
            tool@,
            mode.word(),
            input@,
            output@,
            password@,
        ]);
        out
    }

    /// What a run of the external tool comes to. Without the tool nothing
    /// was run; a run that failed is reported with the diagnostic that the
    /// tool wrote; a run that succeeded gives what the tool printed.
    pub fn abe_outcome(installed: bool, success: bool, output: String, diagnostic: String) -> (r:
        Result<String, Error>)
        ensures
            !installed ==> r == Err::<String, Error>(Error::ExternalToolMissing),
            installed && success ==> r == Ok::<String, Error>(output),
            installed && !success ==> r == Err::<String, Error>(
                Error::ExternalToolFailure { message: diagnostic },
            ),
    {
        if !installed {
            Err(Error::ExternalToolMissing)
        } else if success {
            Ok(output)
        } else {
            Err(Error::ExternalToolFailure { message: diagnostic })
        }
    }
}

} // verus!
