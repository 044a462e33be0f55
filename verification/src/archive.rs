//! Archives in memory: their members as plain values, read and written by the
//! `tar` crate.

use vstd::prelude::*;
use vstd::string::StringExecFns;
use vstd::utf8::{decode_utf8, valid_utf8};
use crate::error::Error;
use crate::text::{chars_of, rows, same, split, split_at_each, string_of};

verus! {

/// The type flag of a member that is a directory.
pub const DIRECTORY: u8 = 53;

/// The failure that reading and writing report.
#[verifier::external_type_specification]
#[verifier::external_body]
pub struct ExIoError(std::io::Error);

/// The failure of `String::from_utf8`.
#[verifier::external_type_specification]
#[verifier::external_body]
pub struct ExFromUtf8Error(std::string::FromUtf8Error);

/// `String::from_utf8` turns bytes that are UTF-8 into the text that they
/// encode, and fails on any other bytes.
pub assume_specification[ String::from_utf8 ](vec: Vec<u8>) -> (r: Result<
    String,
    std::string::FromUtf8Error,
>)
    ensures
        r is Ok <==> valid_utf8(vec@),
        r matches Ok(text) ==> text@ == decode_utf8(vec@),
;

/// The length of the header of a member.
pub const HEADER_LENGTH: usize = 512;

/// A member as an archive stores it: the bytes of its name, its type flag,
/// the block of its header as it stands in the archive, and its content. The
/// header holds what else is known of the member: permission bits, owner
/// and group, time of modification, link target.
#[derive(Debug, PartialEq, Eq, Clone)]
pub struct StoredEntry {
    pub name: Vec<u8>,
    pub kind: u8,
    pub header: Vec<u8>,
    pub data: Vec<u8>,
}

/// What a `StoredEntry` holds.
pub struct StoredEntryView {
    pub name: Seq<u8>,
    pub kind: u8,
    pub header: Seq<u8>,
    pub data: Seq<u8>,
}

impl View for StoredEntry {
    type V = StoredEntryView;

    open spec fn view(&self) -> StoredEntryView {
        StoredEntryView {
            name: self.name@,
            kind: self.kind,
            header: self.header@,
            data: self.data@,
        }
    }
}

/// The views of `members`, in order.
pub open spec fn stored_views(members: Seq<StoredEntry>) -> Seq<StoredEntryView> {
    Seq::new(members.len(), |i: int| members[i]@)
}

/// The members that the `tar` crate reads out of `data`, in their order, or
/// `None` where it reports a failure before it reaches the end.
pub uninterp spec fn archive_members(data: Seq<u8>) -> Option<Seq<StoredEntryView>>;

/// Lists the members of the archive `data` with `tar::Archive::entries`. Of
/// each member it hands out the name (`Entry::path_bytes`), the type flag,
/// the block of the header (`Header::as_bytes`, an array of 512 bytes) and
/// the content. The contract names the listing `archive_members(data)` and
/// claims only that it depends on `data` alone, and that every header has
/// the length of that array.
#[verifier::external_body]
fn read_members(data: &Vec<u8>) -> (r: Result<Vec<StoredEntry>, std::io::Error>)
    ensures
        match r {
            Ok(members) => archive_members(data@) == Some(stored_views(members@)),
            Err(_) => archive_members(data@) is None,
        },
        r matches Ok(members) ==> forall|i: int|
            0 <= i < members@.len() ==> (#[trigger] members@[i]).header@.len() == HEADER_LENGTH,
{
    let mut archive = tar::Archive::new(&data[..]);
    let mut members = Vec::new();
    for item in archive.entries()? {
        let mut item = item?;
        let name = item.path_bytes().into_owned();
        let kind = item.header().entry_type().as_byte();
        let header = item.header().as_bytes().to_vec();
        let mut data = Vec::new();
        std::io::Read::read_to_end(&mut item, &mut data)?;
        members.push(StoredEntry { name, kind, header, data });
    }
    Ok(members)
}

/// The members of the archive `data`, or `Error::Archive` where `data` cannot
/// be read as an archive.
pub fn read_archive(data: &Vec<u8>) -> (r: Result<Vec<StoredEntry>, Error>)
    ensures
        match r {
            Ok(members) => archive_members(data@) == Some(stored_views(members@)),
            Err(e) => e == Error::Archive && archive_members(data@) is None,
        },
        r matches Ok(members) ==> forall|i: int|
            0 <= i < members@.len() ==> (#[trigger] members@[i]).header@.len() == HEADER_LENGTH,
{
    match read_members(data) {
        Ok(members) => Ok(members),
        Err(_) => Err(Error::Archive),
    }
}

/// A member of an archive with its path as components: no component is
/// empty, `.` or `..` where the member was read by `place`. The header is
/// the block that the member had in the archive it was read from, or a
/// fresh one; when the member is written, its name, its type flag and the
/// length of its content are set in it anew and the rest stays.
#[derive(Debug, PartialEq, Eq, Clone)]
pub struct ArchiveEntry {
    pub path: Vec<String>,
    pub kind: u8,
    pub header: Vec<u8>,
    pub data: Vec<u8>,
}

/// What an `ArchiveEntry` holds.
pub struct ArchiveEntryView {
    pub path: Seq<Seq<char>>,
    pub kind: u8,
    pub header: Seq<u8>,
    pub data: Seq<u8>,
}

/// The texts of `items`, in order.
pub open spec fn texts_of(items: Seq<String>) -> Seq<Seq<char>> {
    Seq::new(items.len(), |i: int| items[i]@)
}

impl View for ArchiveEntry {
    type V = ArchiveEntryView;

    open spec fn view(&self) -> ArchiveEntryView {
        ArchiveEntryView {
            path: texts_of(self.path@),
            kind: self.kind,
            header: self.header@,
            data: self.data@,
        }
    }
}

/// The views of `members`, in order.
pub open spec fn entry_views(members: Seq<ArchiveEntry>) -> Seq<ArchiveEntryView> {
    Seq::new(members.len(), |i: int| members[i]@)
}

/// Whether a piece of a stored name counts as a component of the path.
pub open spec fn is_component(piece: Seq<char>) -> bool {
    piece.len() > 0 && piece != seq!['.']
}

/// The components of a stored name: its pieces between slashes, without the
/// empty ones and without `.`.
pub open spec fn parts_of(name: Seq<char>) -> Seq<Seq<char>> {
    split(name, seq!['/']).filter(|piece: Seq<char>| is_component(piece))
}

/// A stored name can be placed below a directory unless it climbs with `..`.
pub open spec fn placeable(name: Seq<char>) -> bool {
    !parts_of(name).contains(seq!['.', '.'])
}

/// The member that a stored member becomes. It becomes none where its name
/// is not text (the bytes are not UTF-8), climbs with `..`, or has no
/// component.
pub open spec fn placed(member: StoredEntryView) -> Option<ArchiveEntryView> {
    let name = decode_utf8(member.name);
    if valid_utf8(member.name) && placeable(name) && parts_of(name).len() > 0 {
        Some(
            ArchiveEntryView {
                path: parts_of(name),
                kind: member.kind,
                header: member.header,
                data: member.data,
            },
        )
    } else {
        None
    }
}

/// The view of a member, if there is one.
pub open spec fn entry_view(member: Option<ArchiveEntry>) -> Option<ArchiveEntryView> {
    match member {
        Some(m) => Some(m@),
        None => None,
    }
}

/// A copy of `bytes`.
pub fn copy_bytes(bytes: &Vec<u8>) -> (r: Vec<u8>)
    ensures
        r@ == bytes@,
{
    let mut out: Vec<u8> = Vec::new();
    let mut i: usize = 0;
    while i < bytes.len()
        invariant
            i <= bytes.len(),
            out@ == bytes@.take(i as int),
        decreases bytes.len() - i,
    {
        out.push(bytes[i]);
        i += 1;
        assert(bytes@.take(i as int) =~= bytes@.take(i as int - 1).push(bytes@[i as int - 1]));
    }
    assert(bytes@.take(i as int) =~= bytes@);
    out
}

/// Turns a stored member into one with a path of components.
pub fn place(member: &StoredEntry) -> (r: Option<ArchiveEntry>)
    ensures
        entry_view(r) == placed(member@),
{
    let name = match String::from_utf8(copy_bytes(&member.name)) {
        Ok(name) => name,
        Err(_) => {
            return None;
        },
    };
    let text = chars_of(name.as_str());
    let mut slash: Vec<char> = Vec::new();
    slash.push('/');
    assert(slash@ =~= seq!['/']);
    let mut dot: Vec<char> = Vec::new();
    dot.push('.');
    assert(dot@ =~= seq!['.']);
    let mut up: Vec<char> = Vec::new();
    up.push('.');
    up.push('.');
    assert(up@ =~= seq!['.', '.']);
    let pieces = split_at_each(&text, &slash);
    let ghost all = rows(&pieces);
    let ghost keep = |piece: Seq<char>| is_component(piece);
    let mut path: Vec<String> = Vec::new();
    let mut i: usize = 0;
    while i < pieces.len()
        invariant
            i <= pieces.len(),
            valid_utf8(member@.name),
            name@ == decode_utf8(member@.name),
            all == rows(&pieces),
            all == split(name@, seq!['/']),
            keep == (|piece: Seq<char>| is_component(piece)),
            dot@ == seq!['.'],
            up@ == seq!['.', '.'],
            texts_of(path@) == all.take(i as int).filter(keep),
            forall|j: int| 0 <= j < i ==> all[j] != seq!['.', '.'],
        decreases pieces.len() - i,
    {
        let piece = &pieces[i];
        assert(piece@ == all[i as int]);
        proof {
            all.take(i as int).lemma_filter_push(all[i as int], keep);
            assert(all.take(i as int + 1) =~= all.take(i as int).push(all[i as int]));
        }
        if same(piece, &up) {
            proof {
                assert(all[i as int] =~= seq!['.', '.']);
                assert(keep(all[i as int]));
                all.lemma_filter_contains(keep, i as int);
                assert(parts_of(name@).contains(seq!['.', '.']));
            }
            return None;
        }
        if piece.len() > 0 && !same(piece, &dot) {
            let ghost before = texts_of(path@);
            let part = string_of(piece);
            path.push(part);
            assert(texts_of(path@) =~= before.push(piece@));
        }
        i += 1;
    }
    assert(all.take(i as int) =~= all);
    proof {
        if all.filter(keep).contains(seq!['.', '.']) {
            all.lemma_filter_contains_rev(keep, seq!['.', '.']);
        }
    }
    if path.len() == 0 {
        return None;
    }
    Some(
        ArchiveEntry {
            path,
            kind: member.kind,
            header: copy_bytes(&member.header),
            data: copy_bytes(&member.data),
        },
    )
}

/// An archive that is being written into memory by a `tar::Builder`.
#[verifier::external_body]
pub struct ArchiveWriter {
    inner: tar::Builder<Vec<u8>>,
}

/// A member as it is handed to the writer: its whole name, its type flag,
/// the block of its header and its content.
pub struct MemberView {
    pub name: Seq<char>,
    pub kind: u8,
    pub header: Seq<u8>,
    pub data: Seq<u8>,
}

/// The members that were appended to `writer`, in their order.
pub uninterp spec fn written(writer: ArchiveWriter) -> Seq<MemberView>;

/// Whether `tar::Builder::append_data` accepts `member`.
pub uninterp spec fn member_fits(member: MemberView) -> bool;

/// The bytes that `tar::Builder::into_inner` hands out for an archive into
/// which `members` were written, or `None` where it reports a failure.
pub uninterp spec fn archive_image(members: Seq<MemberView>) -> Option<Seq<u8>>;

/// Starts an archive in memory with `tar::Builder::new`: nothing is written
/// into it yet.
#[verifier::external_body]
fn new_writer() -> (writer: ArchiveWriter)
    ensures
        written(writer) == Seq::<MemberView>::empty(),
{
    ArchiveWriter { inner: tar::Builder::new(Vec::new()) }
}

/// Appends one member with `tar::Builder::append_data`, under a copy of the
/// header block `header` (`tar::Header::from_byte_slice`, which takes blocks
/// of 512 bytes only) in which the type flag and the length of the content
/// are set. Whether the member is accepted depends on the member alone
/// (`member_fits`); where it is, it stands last in the archive.
#[verifier::external_body]
fn append_member(
    writer: &mut ArchiveWriter,
    name: &str,
    kind: u8,
    header: &Vec<u8>,
    data: &Vec<u8>,
) -> (r: Result<(), std::io::Error>)
    requires
        header@.len() == HEADER_LENGTH,
    ensures
        r is Ok <==> member_fits(MemberView { name: name@, kind, header: header@, data: data@ }),
        r is Ok ==> written(*final(writer)) == written(*old(writer)).push(
            MemberView { name: name@, kind, header: header@, data: data@ },
        ),
{
    let mut block = tar::Header::from_byte_slice(&header[..]).clone();
    block.set_entry_type(tar::EntryType::new(kind));
    block.set_size(data.len() as u64);
    writer.inner.append_data(&mut block, name, &data[..])
}

/// The block of a fresh header with the type flag `kind` and the permission
/// bits `mode`, as `tar::Header::new_gnu` and the setters of the header make
/// it.
pub uninterp spec fn header_image(kind: u8, mode: u32) -> Seq<u8>;

/// Makes a fresh header with `tar::Header::new_gnu`, sets the type flag, the
/// permission bits and the checksum in it, and hands out its block
/// (`Header::as_bytes`, an array of 512 bytes).
#[verifier::external_body]
fn fresh_header(kind: u8, mode: u32) -> (r: Vec<u8>)
    ensures
        r@ == header_image(kind, mode),
        r@.len() == HEADER_LENGTH,
{
    let mut block = tar::Header::new_gnu();
    block.set_entry_type(tar::EntryType::new(kind));
    block.set_mode(mode);
    block.set_cksum();
    block.as_bytes().to_vec()
}

impl ArchiveEntry {
    /// A member with a fresh header: the type flag `kind`, the permission
    /// bits `mode`, and nothing else known of it.
    pub fn new(path: Vec<String>, kind: u8, mode: u32, data: Vec<u8>) -> (r: ArchiveEntry)
        ensures
            r@ == (ArchiveEntryView {
                path: texts_of(path@),
                kind,
                header: header_image(kind, mode),
                data: data@,
            }),
            r@.header.len() == HEADER_LENGTH,
    {
        ArchiveEntry { path, kind, header: fresh_header(kind, mode), data }
    }
}

/// Ends the archive with `tar::Builder::into_inner` and hands out its bytes.
/// The contract names them `archive_image` of the members written and claims
/// only that they depend on those members alone.
#[verifier::external_body]
fn finish_writer(writer: ArchiveWriter) -> (r: Result<Vec<u8>, std::io::Error>)
    ensures
        match r {
            Ok(data) => archive_image(written(writer)) == Some(data@),
            Err(_) => archive_image(written(writer)) is None,
        },
{
    writer.inner.into_inner()
}

/// The components of `path` with a slash between each two.
pub open spec fn joined(path: Seq<Seq<char>>) -> Seq<char>
    decreases path.len(),
{
    if path.len() == 0 {
        Seq::empty()
    } else if path.len() == 1 {
        path[0]
    } else {
        joined(path.drop_last()) + seq!['/'] + path.last()
    }
}

/// Joins the components of `path` with slashes.
pub fn join(path: &Vec<String>) -> (r: String)
    ensures
        r@ == joined(texts_of(path@)),
{
    let mut out = String::new();
    let mut i: usize = 0;
    while i < path.len()
        invariant
            i <= path.len(),
            out@ == joined(texts_of(path@).take(i as int)),
        decreases path.len() - i,
    {
        let ghost before = texts_of(path@).take(i as int);
        let ghost after = texts_of(path@).take(i as int + 1);
        assert(after.drop_last() =~= before);
        assert(after.last() == path@[i as int]@);
        if i > 0 {
            out.push('/');
        }
        out.append(path[i].as_str());
        assert(out@ =~= joined(after));
        i += 1;
    }
    assert(texts_of(path@).take(i as int) =~= texts_of(path@));
    out
}

/// A member in the form in which it is written.
pub open spec fn stored_form(member: ArchiveEntryView) -> MemberView {
    MemberView {
        name: joined(member.path),
        kind: member.kind,
        header: member.header,
        data: member.data,
    }
}

/// A member can be written: its header is a block of the right length, and
/// the archive format accepts the member.
pub open spec fn fits(member: ArchiveEntryView) -> bool {
    member.header.len() == HEADER_LENGTH && member_fits(stored_form(member))
}

/// The archive that holds `members`: `None` where one of them cannot be
/// written, or where the archive cannot be ended.
pub open spec fn encoding(members: Seq<ArchiveEntryView>) -> Option<Seq<u8>> {
    let stored = members.map_values(|m: ArchiveEntryView| stored_form(m));
    if forall|i: int| 0 <= i < members.len() ==> fits(#[trigger] members[i]) {
        archive_image(stored)
    } else {
        None
    }
}

/// Writes `members` into an archive, in their order.
pub fn write_archive(members: &Vec<ArchiveEntry>) -> (r: Result<Vec<u8>, Error>)
    ensures
        match r {
            Ok(data) => encoding(entry_views(members@)) == Some(data@),
            Err(e) => e == Error::Archive && encoding(entry_views(members@)) is None,
        },
{
    let ghost all = entry_views(members@);
    let ghost stored = all.map_values(|m: ArchiveEntryView| stored_form(m));
    let mut writer = new_writer();
    let mut i: usize = 0;
    while i < members.len()
        invariant
            i <= members.len(),
            all == entry_views(members@),
            stored == all.map_values(|m: ArchiveEntryView| stored_form(m)),
            written(writer) == stored.take(i as int),
            forall|j: int| 0 <= j < i ==> fits(#[trigger] all[j]),
        decreases members.len() - i,
    {
        let member = &members[i];
        assert(all[i as int] == member@);
        if member.header.len() != HEADER_LENGTH {
            return Err(Error::Archive);
        }
        let name = join(&member.path);
        assert(stored[i as int] == stored_form(member@));
        match append_member(
            &mut writer,
            name.as_str(),
            member.kind,
            &member.header,
            &member.data,
        ) {
            Ok(_) => {},
            Err(_) => {
                return Err(Error::Archive);
            },
        }
        i += 1;
        assert(stored.take(i as int) =~= stored.take(i as int - 1).push(stored[i as int - 1]));
    }
    assert(stored.take(i as int) =~= stored);
    match finish_writer(writer) {
        Ok(data) => Ok(data),
        Err(_) => Err(Error::Archive),
    }
}

} // verus!
