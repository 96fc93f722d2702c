//! Archives (zip, 7z, tar) surfaced as browsable trees: archive-core decodes the
//! archive bytes and lists its members; each member becomes a tree member keyed
//! by its listing position, and the archive's format decides the filesystem kind
//! it is shown as.

use vstd::prelude::*;
use archive_core::{Archive, ArchiveError, Format};
use crate::tree::{tree_of, listed_members, listing_members, members_view, ContainerTree, Member};

verus! {

#[verifier::external_type_specification]
#[verifier::external_body]
pub struct ExArchive(Archive);

#[verifier::external_type_specification]
#[verifier::external_body]
pub struct ExArchiveError(ArchiveError);

/// The packing formats archive-core tells apart; `Unlisted` stands for a
/// format added to archive-core after these.
#[derive(PartialEq, Eq, Structural, Clone, Copy, Debug)]
pub enum ArchiveFormat {
    Gzip,
    Bzip2,
    TarGz,
    TarBz2,
    Tar,
    Zip,
    SevenZip,
    Unknown,
    Unlisted,
}

/// The filesystem kind a browsable archive is surfaced as.
#[derive(PartialEq, Eq, Structural, Clone, Copy, Debug)]
pub enum ArchiveKind {
    Zip,
    SevenZip,
    Tar,
}

/// Zip and 7z keep their own kind; the tar family, and any other archive
/// format, is shown as tar.
pub open spec fn kind_of(format: ArchiveFormat) -> ArchiveKind {
    match format {
        ArchiveFormat::Zip => ArchiveKind::Zip,
        ArchiveFormat::SevenZip => ArchiveKind::SevenZip,
        _ => ArchiveKind::Tar,
    }
}

/// The filesystem kind of an archive of `format`.
pub fn archive_kind(format: ArchiveFormat) -> (k: ArchiveKind)
    ensures
        k == kind_of(format),
{
    match format {
        ArchiveFormat::Zip => ArchiveKind::Zip,
        ArchiveFormat::SevenZip => ArchiveKind::SevenZip,
        _ => ArchiveKind::Tar,
    }
}

/// The member table archive-core reads from the archive in `data` (opened
/// under the name hint `name`): each member's name bytes, declared size and
/// directory flag, in archive order.
pub uninterp spec fn archive_members_listed(data: Seq<u8>, name: Option<Seq<char>>) -> Seq<(Seq<u8>, u64, bool)>;

/// What a decoded archive holds in its member table: each member's name
/// bytes, declared size and directory flag, in archive order.
pub uninterp spec fn archive_listing(archive: Archive) -> Seq<(Seq<u8>, u64, bool)>;

/// The format a decoded archive records.
pub uninterp spec fn archive_format_of(archive: Archive) -> ArchiveFormat;

/// The abstract value of an optional name hint.
pub open spec fn hint_view(name: Option<&str>) -> Option<Seq<char>> {
    match name {
        Some(s) => Some(s@),
        None => None,
    }
}

/// Whether archive-core fails to decode the member-list archive in `data`
/// (opened under the name hint `name`).
pub uninterp spec fn archive_decode_fails(data: Seq<u8>, name: Option<Seq<char>>) -> bool;

/// The error archive-core reports when it fails to decode the archive in
/// `data` (opened under the name hint `name`).
pub uninterp spec fn archive_decode_error(data: Seq<u8>, name: Option<Seq<char>>) -> ArchiveError;

/// `archive_core::Archive::open`: it sniffs the format from `name` and `data`
/// and returns `Ok(None)` exactly when that format is no member-list archive.
/// Otherwise it parses the archive's directory from the bytes: it fails, with
/// an error built from that parse, or returns an archive that records the
/// sniffed format and the member table read from the bytes. Whether it fails,
/// and its error, are functions of the bytes and the hint on a given target
/// (the 7z decoder's memory cap is `usize::MAX / 1024` KiB). The archive value
/// itself is not stated: a 7z archive holds a reader whose thread count and
/// hasher seed, set after the parse, depend on the machine and the process.
#[verifier::external_body]
fn decode_archive(data: &[u8], name: Option<&str>) -> (r: Result<Option<Archive>, ArchiveError>)
    ensures
        (r matches Ok(None)) <==> !lists_members(archive_sniffed(hint_view(name), data@)),
        r is Err <==> (lists_members(archive_sniffed(hint_view(name), data@))
            && archive_decode_fails(data@, hint_view(name))),
        r matches Err(e) ==> e == archive_decode_error(data@, hint_view(name)),
        r matches Ok(Some(a)) ==> archive_format_of(a) == archive_sniffed(hint_view(name), data@)
            && archive_listing(a) == archive_members_listed(data@, hint_view(name)),
{
    Archive::open(data, name)
}

/// `archive_core::Archive::entries`: the member list, each entry taken as its
/// name's UTF-8 bytes, its size and its directory flag.
#[verifier::external_body]
fn list_archive(archive: &Archive) -> (v: Vec<(Vec<u8>, u64, bool)>)
    ensures
        v@.map_values(|e: (Vec<u8>, u64, bool)| (e.0@, e.1, e.2)) == archive_listing(*archive),
{
    archive.entries().iter().map(|e| (e.name.as_bytes().to_vec(), e.size, e.is_dir)).collect()
}

/// `archive_core::Archive::format`, one variant for each of its variants.
#[verifier::external_body]
fn format_of(archive: &Archive) -> (f: ArchiveFormat)
    ensures
        f == archive_format_of(*archive),
{
    match archive.format() {
        Format::Gzip => ArchiveFormat::Gzip,
        Format::Bzip2 => ArchiveFormat::Bzip2,
        Format::TarGz => ArchiveFormat::TarGz,
        Format::TarBz2 => ArchiveFormat::TarBz2,
        Format::Tar => ArchiveFormat::Tar,
        Format::Zip => ArchiveFormat::Zip,
        Format::SevenZip => ArchiveFormat::SevenZip,
        Format::Unknown => ArchiveFormat::Unknown,
        _ => ArchiveFormat::Unlisted,
    }
}

/// A decoded archive with its surfaced kind and derived tree.
pub struct ArchiveTree {
    pub archive: Archive,
    pub kind: ArchiveKind,
    pub tree: ContainerTree,
}

/// The format `archive_core::sniff` tells from a name hint and the leading
/// bytes of a source.
pub uninterp spec fn archive_sniffed(name: Option<Seq<char>>, head: Seq<u8>) -> ArchiveFormat;

/// `archive_core::sniff`: the packing format told by content magic, with the
/// name deciding the tar-compression aliases and the magic-silent cases; one
/// variant for each of its variants.
#[verifier::external_body]
fn sniff_format(name: Option<&str>, head: &[u8]) -> (f: ArchiveFormat)
    ensures
        f == archive_sniffed(hint_view(name), head@),
{
    match archive_core::sniff(name, head) {
        Format::Gzip => ArchiveFormat::Gzip,
        Format::Bzip2 => ArchiveFormat::Bzip2,
        Format::TarGz => ArchiveFormat::TarGz,
        Format::TarBz2 => ArchiveFormat::TarBz2,
        Format::Tar => ArchiveFormat::Tar,
        Format::Zip => ArchiveFormat::Zip,
        Format::SevenZip => ArchiveFormat::SevenZip,
        Format::Unknown => ArchiveFormat::Unknown,
        _ => ArchiveFormat::Unlisted,
    }
}

/// A format whose sources list members: the tar family, zip and 7z.
pub open spec fn lists_members(format: ArchiveFormat) -> bool {
    match format {
        ArchiveFormat::Tar | ArchiveFormat::TarGz | ArchiveFormat::TarBz2 | ArchiveFormat::Zip
        | ArchiveFormat::SevenZip => true,
        _ => false,
    }
}

/// Whether a source named `name` whose leading bytes are `head` sniffs as a
/// member-list archive, so that it is worth reading whole and decoding.
pub fn sniffs_as_archive(name: Option<&str>, head: &[u8]) -> (r: bool)
    ensures
        r == lists_members(archive_sniffed(hint_view(name), head@)),
{
    match sniff_format(name, head) {
        ArchiveFormat::Tar | ArchiveFormat::TarGz | ArchiveFormat::TarBz2 | ArchiveFormat::Zip
        | ArchiveFormat::SevenZip => true,
        _ => false,
    }
}

/// The tree members of the archive in `data` opened under the hint `name`.
pub open spec fn archive_tree_members(data: Seq<u8>, name: Option<Seq<char>>) -> Seq<(Seq<u8>, u64, bool, usize)> {
    listed_members(archive_members_listed(data, name))
}

/// Decode `data` as a browsable archive. `Ok(None)` exactly when `data` (with
/// the name hint) sniffs as no member-list archive; the decoder's error exactly
/// when it sniffs as one and the decoder fails; otherwise the archive, the kind
/// its sniffed format is shown as, and the tree of its members, each member
/// keyed by its position in the member table.
pub fn open_archive(data: &[u8], name: Option<&str>) -> (r: Result<Option<ArchiveTree>, ArchiveError>)
    ensures
        (r matches Ok(None)) <==> !lists_members(archive_sniffed(hint_view(name), data@)),
        r is Err <==> (lists_members(archive_sniffed(hint_view(name), data@))
            && archive_decode_fails(data@, hint_view(name))),
        (r matches Ok(Some(_))) <==> lists_members(archive_sniffed(hint_view(name), data@))
            && !archive_decode_fails(data@, hint_view(name)),
        r matches Err(e) ==> e == archive_decode_error(data@, hint_view(name)),
        r matches Ok(Some(t)) ==> {
            &&& lists_members(archive_sniffed(hint_view(name), data@))
            &&& archive_format_of(t.archive) == archive_sniffed(hint_view(name), data@)
            &&& t.kind == kind_of(archive_sniffed(hint_view(name), data@))
            &&& exists|ms: Seq<Member>|
                members_view(ms) == archive_tree_members(data@, hint_view(name)) && t.tree@ == tree_of(ms).nodes
        },
{
    let archive = match decode_archive(data, name) {
        Err(e) => return Err(e),
        Ok(None) => return Ok(None),
        Ok(Some(a)) => a,
    };
    let listing = list_archive(&archive);
    let members = listing_members(listing.as_slice());
    let kind = archive_kind(format_of(&archive));
    let tree = ContainerTree::new(members.as_slice());
    assert(members_view(members@) == archive_tree_members(data@, hint_view(name)));
    Ok(Some(ArchiveTree { archive, kind, tree }))
}

} // verus!
